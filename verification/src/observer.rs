//! Scripts that drive a client nobody sits at.
//!
//! A line of a script has a time, a command and what the command needs. What
//! follows a `#` is not read. The numbers in a line are read by whoever reads the
//! script, and handed in word by word.

use crate::net::protocol::{
    BeamImpulseMessage, ParentCastInfo, PickupLanternMessage, PlacePortalMessage,
    PlayerInputMessage, PropShape, SpawnBodyMessage, ThrowLanternMessage,
};
use crate::scalar::{one, zero, Scalar};
use crate::spells::portal::{ahead, PortalSlot};
use crate::table::same_text;
use crate::vector::{Quat, Vec2, Vec3};
use std::collections::VecDeque;
use vstd::prelude::*;
use vstd::string::StrSliceExecFns;

verus! {

/// How big a ball of fire is (`0.15`).
#[verifier::allow_in_spec]
pub fn fireball_radius() -> Scalar
    returns
        (Scalar { bits: 0x3e19_999a }),
{
    Scalar { bits: 0x3e19_999a }
}

/// How heavy a ball of fire is (`0.4`).
#[verifier::allow_in_spec]
pub fn fireball_mass() -> Scalar
    returns
        (Scalar { bits: 0x3ecc_cccd }),
{
    Scalar { bits: 0x3ecc_cccd }
}

/// How much a ball of fire rubs (`0.3`).
#[verifier::allow_in_spec]
pub fn fireball_friction() -> Scalar
    returns
        (Scalar { bits: 0x3e99_999a }),
{
    Scalar { bits: 0x3e99_999a }
}

/// How much a ball of fire slows down (`0.1`).
#[verifier::allow_in_spec]
pub fn fireball_damping() -> Scalar
    returns
        (Scalar { bits: 0x3dcc_cccd }),
{
    Scalar { bits: 0x3dcc_cccd }
}

/// How much a ball of fire bounces (`0.02`).
#[verifier::allow_in_spec]
pub fn fireball_restitution() -> Scalar
    returns
        (Scalar { bits: 0x3ca3_d70a }),
{
    Scalar { bits: 0x3ca3_d70a }
}

/// A word as a number: its value, and the turn by as much around the vertical.
#[derive(Clone, Copy, Debug, PartialEq, Eq, Structural)]
pub struct Reading {
    pub value: Scalar,
    pub turn: Quat,
}

/// What a script has its client do.
#[derive(Clone, Copy, Debug, PartialEq, Eq, Structural)]
pub enum Command {
    Goto { pos: Vec3 },
    Look { yaw: Scalar, turn: Quat },
    Forward { dir: Vec3 },
    MoveInput { axis: Vec2 },
    ThrowLantern { origin: Vec3, velocity: Vec3 },
    PickupLantern,
    Beam { origin: Vec3, direction: Vec3, range: Scalar, magnitude: Scalar },
    PlacePortal { slot: PortalSlot, position: Vec3, normal: Vec3 },
    ThrowFireball { origin: Vec3, velocity: Vec3 },
    Exit,
}

/// A command, and when.
#[derive(Clone, Copy, Debug, PartialEq, Eq, Structural)]
pub struct Timed {
    pub time: Scalar,
    pub command: Command,
}

pub open spec fn spec_is_space(c: char) -> bool {
    ('\u{9}' <= c && c <= '\u{d}') || c == ' ' || c == '\u{85}' || c == '\u{a0}' || c == '\u{1680}'
        || ('\u{2000}' <= c && c <= '\u{200a}') || c == '\u{2028}' || c == '\u{2029}' || c
        == '\u{202f}' || c == '\u{205f}' || c == '\u{3000}'
}

/// Whether a character is white space.
#[verifier::when_used_as_spec(spec_is_space)]
pub fn is_space(c: char) -> (r: bool)
    ensures
        r == spec_is_space(c),
{
    ('\u{9}' <= c && c <= '\u{d}') || c == ' ' || c == '\u{85}' || c == '\u{a0}' || c == '\u{1680}'
        || ('\u{2000}' <= c && c <= '\u{200a}') || c == '\u{2028}' || c == '\u{2029}' || c
        == '\u{202f}' || c == '\u{205f}' || c == '\u{3000}'
}

/// How far a line is read: as far as the first `#`.
pub open spec fn read_length(line: Seq<char>) -> int
    decreases line.len(),
{
    if line.len() == 0 || line[0] == '#' {
        0
    } else {
        1 + read_length(line.skip(1))
    }
}

/// Where the word ends that begins at place `i`.
pub open spec fn word_end(line: Seq<char>, i: int) -> int
    decreases line.len() - i,
{
    if i < 0 || i >= line.len() || is_space(line[i]) {
        i
    } else {
        word_end(line, i + 1)
    }
}

proof fn lemma_word_end(line: Seq<char>, i: int)
    requires
        0 <= i <= line.len(),
    ensures
        i <= word_end(line, i) <= line.len(),
        i < line.len() && !is_space(line[i]) ==> i < word_end(line, i),
        forall|k: int| i <= k < word_end(line, i) ==> !is_space(#[trigger] line[k]),
        word_end(line, i) < line.len() ==> is_space(line[word_end(line, i)]),
    decreases line.len() - i,
{
    if i < line.len() && !is_space(line[i]) {
        lemma_word_end(line, i + 1);
    }
}

/// The words of a line from place `i` on: what stands between white space.
pub open spec fn words_from(line: Seq<char>, i: int) -> Seq<Seq<char>>
    decreases line.len() - i,
    when 0 <= i
    via words_from_decreases
{
    if i >= line.len() {
        Seq::empty()
    } else if is_space(line[i]) {
        words_from(line, i + 1)
    } else {
        seq![line.subrange(i, word_end(line, i))] + words_from(line, word_end(line, i))
    }
}

#[via_fn]
proof fn words_from_decreases(line: Seq<char>, i: int) {
    if 0 <= i < line.len() {
        lemma_word_end(line, i);
    }
}

/// The words of a line that are read.
pub open spec fn words_of(line: Seq<char>) -> Seq<Seq<char>> {
    words_from(line.take(read_length(line)), 0)
}

/// Words as text.
pub open spec fn texts(words: Seq<String>) -> Seq<Seq<char>> {
    words.map_values(|w: String| w@)
}

fn find_read_length(line: &str) -> (r: usize)
    ensures
        r == read_length(line@),
        r <= line@.len(),
{
    let n = line.unicode_len();
    let mut i: usize = 0;
    assert(line@.skip(0) =~= line@);
    while i < n
        invariant
            i <= n,
            n == line@.len(),
            read_length(line@) == i + read_length(line@.skip(i as int)),
        decreases n - i,
    {
        if line.get_char(i) == '#' {
            return i;
        }
        assert(line@.skip(i as int).skip(1) =~= line@.skip(i + 1));
        i += 1;
    }
    i
}

/// The words of a line that are read.
pub fn split_words(line: &str) -> (r: Vec<String>)
    ensures
        texts(r@) == words_of(line@),
{
    let n = find_read_length(line);
    let ghost read = line@.take(n as int);
    let mut words: Vec<String> = Vec::new();
    let mut i: usize = 0;
    assert(texts(words@) =~= Seq::<Seq<char>>::empty());
    assert(texts(words@) + words_from(read, 0) =~= words_from(read, 0));
    while i < n
        invariant
            i <= n,
            n <= line@.len(),
            read == line@.take(n as int),
            texts(words@) + words_from(read, i as int) == words_from(read, 0),
        decreases n - i,
    {
        assert(line@[i as int] == read[i as int]);
        if is_space(line.get_char(i)) {
            i += 1;
        } else {
            let start = i;
            let ghost before = texts(words@);
            proof {
                lemma_word_end(read, start as int);
            }
            while i < n && !is_space(line.get_char(i))
                invariant
                    start <= i <= n,
                    n <= line@.len(),
                    read == line@.take(n as int),
                    word_end(read, start as int) == word_end(read, i as int),
                decreases n - i,
            {
                i += 1;
            }
            assert(i == word_end(read, start as int)) by {
                if i < n {
                    assert(is_space(read[i as int]));
                }
            }
            let word = line.substring_char(start, i);
            assert(word@ =~= read.subrange(start as int, i as int));
            words.push(word.to_owned());
            assert(texts(words@) =~= before.push(word@));
            assert(texts(words@) + words_from(read, i as int) =~= before + words_from(
                read,
                start as int,
            ));
        }
    }
    assert(texts(words@) + words_from(read, n as int) =~= texts(words@));
    words
}

/// A word as a number, if there is one and it is one.
pub open spec fn number_at(numbers: Seq<Option<Reading>>, i: int) -> Option<Scalar> {
    if 0 <= i < numbers.len() && numbers[i] is Some {
        Some(numbers[i]->Some_0.value)
    } else {
        None
    }
}

/// Three words as a vector, if they all are numbers.
pub open spec fn vector_at(numbers: Seq<Option<Reading>>, i: int) -> Option<Vec3> {
    match (number_at(numbers, i), number_at(numbers, i + 1), number_at(numbers, i + 2)) {
        (Some(x), Some(y), Some(z)) => Some(Vec3 { x, y, z }),
        _ => None,
    }
}

/// The slot that a word names.
pub open spec fn slot_named(word: Seq<char>) -> Option<PortalSlot> {
    if word == "primary"@ {
        Some(PortalSlot::Primary)
    } else if word == "secondary"@ {
        Some(PortalSlot::Secondary)
    } else {
        None
    }
}

/// The command that the words of a line make, after the time.
pub open spec fn command_of(
    words: Seq<Seq<char>>,
    numbers: Seq<Option<Reading>>,
) -> Option<Command> {
    let kind = words[1];
    if kind == "goto"@ {
        match vector_at(numbers, 2) {
            Some(pos) => Some(Command::Goto { pos }),
            None => None,
        }
    } else if kind == "look"@ {
        match number_at(numbers, 2) {
            Some(yaw) => Some(Command::Look { yaw, turn: numbers[2]->Some_0.turn }),
            None => None,
        }
    } else if kind == "forward"@ {
        match vector_at(numbers, 2) {
            Some(dir) => Some(Command::Forward { dir }),
            None => None,
        }
    } else if kind == "move_input"@ {
        match (number_at(numbers, 2), number_at(numbers, 3)) {
            (Some(x), Some(y)) => Some(Command::MoveInput { axis: Vec2 { x, y } }),
            _ => None,
        }
    } else if kind == "throw_lantern"@ {
        match (vector_at(numbers, 2), vector_at(numbers, 5)) {
            (Some(origin), Some(velocity)) => Some(Command::ThrowLantern { origin, velocity }),
            _ => None,
        }
    } else if kind == "pickup_lantern"@ {
        Some(Command::PickupLantern)
    } else if kind == "beam"@ {
        match (
            vector_at(numbers, 2),
            vector_at(numbers, 5),
            number_at(numbers, 8),
            number_at(numbers, 9),
        ) {
            (Some(origin), Some(direction), Some(range), Some(magnitude)) => Some(
                Command::Beam { origin, direction, range, magnitude },
            ),
            _ => None,
        }
    } else if kind == "place_portal"@ {
        if words.len() < 3 {
            None
        } else {
            match (slot_named(words[2]), vector_at(numbers, 3), vector_at(numbers, 6)) {
                (Some(slot), Some(position), Some(normal)) => Some(
                    Command::PlacePortal { slot, position, normal },
                ),
                _ => None,
            }
        }
    } else if kind == "throw_fireball"@ {
        match (vector_at(numbers, 2), vector_at(numbers, 5)) {
            (Some(origin), Some(velocity)) => Some(Command::ThrowFireball { origin, velocity }),
            _ => None,
        }
    } else if kind == "exit"@ {
        Some(Command::Exit)
    } else {
        None
    }
}

/// What the words of a line make: none without a time and a command that has all
/// that it needs.
pub open spec fn line_of(words: Seq<Seq<char>>, numbers: Seq<Option<Reading>>) -> Option<Timed> {
    if words.len() < 2 {
        None
    } else {
        match (number_at(numbers, 0), command_of(words, numbers)) {
            (Some(time), Some(command)) => Some(Timed { time, command }),
            _ => None,
        }
    }
}

fn read_number(numbers: &Vec<Option<Reading>>, i: usize) -> (r: Option<Scalar>)
    ensures
        r == number_at(numbers@, i as int),
{
    if i < numbers.len() {
        match numbers[i] {
            Some(reading) => Some(reading.value),
            None => None,
        }
    } else {
        None
    }
}

fn read_vec3(numbers: &Vec<Option<Reading>>, i: usize) -> (r: Option<Vec3>)
    requires
        i < 100,
    ensures
        r == vector_at(numbers@, i as int),
{
    match (read_number(numbers, i), read_number(numbers, i + 1), read_number(numbers, i + 2)) {
        (Some(x), Some(y), Some(z)) => Some(Vec3 { x, y, z }),
        _ => None,
    }
}

fn read_slot(word: &str) -> (r: Option<PortalSlot>)
    ensures
        r == slot_named(word@),
{
    if same_text(word, "primary") {
        Some(PortalSlot::Primary)
    } else if same_text(word, "secondary") {
        Some(PortalSlot::Secondary)
    } else {
        None
    }
}

fn read_command(words: &Vec<String>, numbers: &Vec<Option<Reading>>) -> (r: Option<Command>)
    requires
        words@.len() >= 2,
    ensures
        r == command_of(texts(words@), numbers@),
{
    assert(texts(words@)[1] == words@[1]@);
    let kind = words[1].as_str();
    if same_text(kind, "goto") {
        match read_vec3(numbers, 2) {
            Some(pos) => Some(Command::Goto { pos }),
            None => None,
        }
    } else if same_text(kind, "look") {
        match read_number(numbers, 2) {
            Some(yaw) => match numbers[2] {
                Some(reading) => Some(Command::Look { yaw, turn: reading.turn }),
                None => None,
            },
            None => None,
        }
    } else if same_text(kind, "forward") {
        match read_vec3(numbers, 2) {
            Some(dir) => Some(Command::Forward { dir }),
            None => None,
        }
    } else if same_text(kind, "move_input") {
        match (read_number(numbers, 2), read_number(numbers, 3)) {
            (Some(x), Some(y)) => Some(Command::MoveInput { axis: Vec2 { x, y } }),
            _ => None,
        }
    } else if same_text(kind, "throw_lantern") {
        match (read_vec3(numbers, 2), read_vec3(numbers, 5)) {
            (Some(origin), Some(velocity)) => Some(Command::ThrowLantern { origin, velocity }),
            _ => None,
        }
    } else if same_text(kind, "pickup_lantern") {
        Some(Command::PickupLantern)
    } else if same_text(kind, "beam") {
        match (
            read_vec3(numbers, 2),
            read_vec3(numbers, 5),
            read_number(numbers, 8),
            read_number(numbers, 9),
        ) {
            (Some(origin), Some(direction), Some(range), Some(magnitude)) => Some(
                Command::Beam { origin, direction, range, magnitude },
            ),
            _ => None,
        }
    } else if same_text(kind, "place_portal") {
        if words.len() < 3 {
            return None;
        }
        assert(texts(words@)[2] == words@[2]@);
        match (read_slot(words[2].as_str()), read_vec3(numbers, 3), read_vec3(numbers, 6)) {
            (Some(slot), Some(position), Some(normal)) => Some(
                Command::PlacePortal { slot, position, normal },
            ),
            _ => None,
        }
    } else if same_text(kind, "throw_fireball") {
        match (read_vec3(numbers, 2), read_vec3(numbers, 5)) {
            (Some(origin), Some(velocity)) => Some(Command::ThrowFireball { origin, velocity }),
            _ => None,
        }
    } else if same_text(kind, "exit") {
        Some(Command::Exit)
    } else {
        None
    }
}

/// What a line makes, given its words and which of them are numbers.
pub fn parse_line(words: &Vec<String>, numbers: &Vec<Option<Reading>>) -> (r: Option<Timed>)
    ensures
        r == line_of(texts(words@), numbers@),
{
    if words.len() < 2 {
        return None;
    }
    match (read_number(numbers, 0), read_command(words, numbers)) {
        (Some(time), Some(command)) => Some(Timed { time, command }),
        _ => None,
    }
}

/// The parts of a text that are numbers.
pub open spec fn present(parts: Seq<Option<Scalar>>) -> Seq<Scalar>
    decreases parts.len(),
{
    if parts.len() == 0 {
        Seq::empty()
    } else {
        match parts.last() {
            Some(x) => present(parts.drop_last()).push(x),
            None => present(parts.drop_last()),
        }
    }
}

/// The vector that a text makes, given which of its parts are numbers: just if
/// three of them are.
pub fn parse_vec3(parts: &Vec<Option<Scalar>>) -> (r: Option<Vec3>)
    ensures
        ({
            let found = present(parts@);
            r == (if found.len() == 3 {
                Some(Vec3 { x: found[0], y: found[1], z: found[2] })
            } else {
                None
            })
        }),
{
    let mut found: Vec<Scalar> = Vec::new();
    let mut i: usize = 0;
    assert(found@ =~= present(parts@.take(0)));
    while i < parts.len()
        invariant
            i <= parts.len(),
            found@ == present(parts@.take(i as int)),
        decreases parts.len() - i,
    {
        assert(parts@.take(i + 1).drop_last() =~= parts@.take(i as int));
        match parts[i] {
            Some(x) => found.push(x),
            None => {},
        }
        i += 1;
    }
    assert(parts@.take(i as int) =~= parts@);
    if found.len() == 3 {
        Some(Vec3 { x: found[0], y: found[1], z: found[2] })
    } else {
        None
    }
}

/// The commands of a script that are still to come, the earliest first.
#[derive(Debug)]
pub struct ScriptedCommands {
    pub queue: VecDeque<Timed>,
}

/// Where a command goes among those that are in order: behind all that are not
/// later.
pub open spec fn place_for(queue: Seq<Timed>, time: Scalar) -> int
    decreases queue.len(),
{
    if queue.len() == 0 || !queue.last().time.gt(time) {
        queue.len() as int
    } else {
        place_for(queue.drop_last(), time)
    }
}

/// The commands in order: by time, and those of one time as they stood.
pub open spec fn in_order(commands: Seq<Timed>) -> Seq<Timed>
    decreases commands.len(),
{
    if commands.len() == 0 {
        Seq::empty()
    } else {
        let before = in_order(commands.drop_last());
        before.insert(place_for(before, commands.last().time), commands.last())
    }
}

proof fn lemma_place_for(queue: Seq<Timed>, time: Scalar)
    ensures
        0 <= place_for(queue, time) <= queue.len(),
        forall|k: int| place_for(queue, time) <= k < queue.len() ==> (#[trigger] queue[k]).time.gt(time),
        place_for(queue, time) > 0 ==> !queue[place_for(queue, time) - 1].time.gt(time),
    decreases queue.len(),
{
    if queue.len() > 0 && queue.last().time.gt(time) {
        let rest = queue.drop_last();
        lemma_place_for(rest, time);
        assert forall|k: int| place_for(queue, time) <= k < queue.len() implies (
        #[trigger] queue[k]).time.gt(time) by {
            if k < rest.len() {
                assert(rest[k] == queue[k]);
            }
        }
    }
}

fn find_place(queue: &VecDeque<Timed>, time: Scalar) -> (r: usize)
    ensures
        r == place_for(queue@, time),
        r <= queue@.len(),
{
    let mut i: usize = queue.len();
    assert(queue@.take(i as int) =~= queue@);
    while i > 0
        invariant
            i <= queue.len(),
            place_for(queue@, time) == place_for(queue@.take(i as int), time),
        decreases i,
    {
        assert(queue@.take(i as int).drop_last() =~= queue@.take(i - 1));
        if !queue[i - 1].time.gt(time) {
            return i;
        }
        i -= 1;
    }
    i
}

impl ScriptedCommands {
    /// A script with these commands.
    pub fn new(commands: &Vec<Timed>) -> (r: ScriptedCommands)
        ensures
            r.queue@ == in_order(commands@),
    {
        let mut queue: VecDeque<Timed> = VecDeque::new();
        let mut i: usize = 0;
        assert(queue@ =~= in_order(commands@.take(0)));
        while i < commands.len()
            invariant
                i <= commands.len(),
                queue@ == in_order(commands@.take(i as int)),
            decreases commands.len() - i,
        {
            assert(commands@.take(i + 1).drop_last() =~= commands@.take(i as int));
            let place = find_place(&queue, commands[i].time);
            queue.insert(place, commands[i]);
            i += 1;
        }
        assert(commands@.take(i as int) =~= commands@);
        ScriptedCommands { queue }
    }
}

/// The body of a client that nobody sits at.
#[derive(Clone, Copy, Debug, PartialEq, Eq, Structural)]
pub struct ObserverState {
    pub pos: Vec3,
    pub yaw: Scalar,
    pub forward: Vec3,
    pub movement: Vec2,
    pub initialized: bool,
}

impl Default for ObserverState {
    fn default() -> (r: ObserverState)
        ensures
            r == (ObserverState {
                pos: Vec3::origin(),
                yaw: zero(),
                forward: Vec3::origin(),
                movement: Vec2 { x: zero(), y: zero() },
                initialized: false,
            }),
    {
        ObserverState {
            pos: Vec3::origin(),
            yaw: zero(),
            forward: Vec3::origin(),
            movement: Vec2 { x: zero(), y: zero() },
            initialized: false,
        }
    }
}

/// Puts the client where it starts, looking ahead, once it is connected.
pub fn on_connected_observer(state: &mut ObserverState, spawn: Vec3)
    ensures
        *final(state) == (ObserverState {
            pos: spawn,
            yaw: zero(),
            forward: ahead(),
            movement: old(state).movement,
            initialized: true,
        }),
{
    state.pos = spawn;
    state.yaw = zero();
    state.forward = ahead();
    state.initialized = true;
}

pub open spec fn spec_send_simulated_position(state: ObserverState) -> Option<PlayerInputMessage> {
    if state.initialized {
        Some(
            PlayerInputMessage {
                movement: state.movement,
                yaw: state.yaw,
                pitch: zero(),
                jump: false,
                casting: false,
            },
        )
    } else {
        None
    }
}

/// What the client does in a frame, for the server; nothing before it is connected.
#[verifier::when_used_as_spec(spec_send_simulated_position)]
pub fn send_simulated_position(state: ObserverState) -> (r: Option<PlayerInputMessage>)
    ensures
        r == spec_send_simulated_position(state),
{
    if state.initialized {
        Some(
            PlayerInputMessage {
                movement: state.movement,
                yaw: state.yaw,
                pitch: zero(),
                jump: false,
                casting: false,
            },
        )
    } else {
        None
    }
}

/// What a command has the client send.
#[derive(Clone, Copy, Debug, PartialEq, Eq, Structural)]
pub enum Action {
    /// Nothing: only the client's own body has moved.
    Moved,
    Throw(ThrowLanternMessage),
    Pickup(PickupLanternMessage),
    Beam(BeamImpulseMessage),
    Portal(PlacePortalMessage),
    Fireball { origin: Vec3, velocity: Vec3 },
    Exit,
}

pub open spec fn spec_state_after(state: ObserverState, command: Command) -> ObserverState {
    match command {
        Command::Goto { pos } => ObserverState { pos, ..state },
        Command::Look { yaw, turn } => ObserverState { yaw, forward: turn.rotate(ahead()), ..state },
        Command::Forward { dir } => ObserverState { pos: state.pos.plus(dir), ..state },
        Command::MoveInput { axis } => ObserverState { movement: axis, ..state },
        _ => state,
    }
}

/// The client's body after a command.
#[verifier::when_used_as_spec(spec_state_after)]
pub fn state_after(state: ObserverState, command: Command) -> (r: ObserverState)
    ensures
        r == spec_state_after(state, command),
{
    match command {
        Command::Goto { pos } => ObserverState { pos, ..state },
        Command::Look { yaw, turn } => ObserverState { yaw, forward: turn.rotate(ahead()), ..state },
        Command::Forward { dir } => ObserverState { pos: state.pos.plus(dir), ..state },
        Command::MoveInput { axis } => ObserverState { movement: axis, ..state },
        _ => state,
    }
}

pub open spec fn spec_action_of(state: ObserverState, command: Command) -> Action {
    match command {
        Command::Goto { pos: _ } => Action::Moved,
        Command::Look { yaw: _, turn: _ } => Action::Moved,
        Command::Forward { dir: _ } => Action::Moved,
        Command::MoveInput { axis: _ } => Action::Moved,
        Command::ThrowLantern { origin, velocity } => Action::Throw(
            ThrowLanternMessage { origin, velocity },
        ),
        Command::PickupLantern => Action::Pickup(
            PickupLanternMessage { player_position: state.pos },
        ),
        Command::Beam { origin, direction, range, magnitude } => Action::Beam(
            BeamImpulseMessage { origin, direction, range, magnitude, damage: zero() },
        ),
        Command::PlacePortal { slot, position, normal } => Action::Portal(
            PlacePortalMessage { slot, position, normal },
        ),
        Command::ThrowFireball { origin, velocity } => Action::Fireball { origin, velocity },
        Command::Exit => Action::Exit,
    }
}

/// What a command has the client send.
#[verifier::when_used_as_spec(spec_action_of)]
pub fn action_of(state: ObserverState, command: Command) -> (r: Action)
    ensures
        r == spec_action_of(state, command),
{
    match command {
        Command::Goto { pos: _ } => Action::Moved,
        Command::Look { yaw: _, turn: _ } => Action::Moved,
        Command::Forward { dir: _ } => Action::Moved,
        Command::MoveInput { axis: _ } => Action::Moved,
        Command::ThrowLantern { origin, velocity } => Action::Throw(
            ThrowLanternMessage { origin, velocity },
        ),
        Command::PickupLantern => Action::Pickup(
            PickupLanternMessage { player_position: state.pos },
        ),
        Command::Beam { origin, direction, range, magnitude } => Action::Beam(
            BeamImpulseMessage { origin, direction, range, magnitude, damage: zero() },
        ),
        Command::PlacePortal { slot, position, normal } => Action::Portal(
            PlacePortalMessage { slot, position, normal },
        ),
        Command::ThrowFireball { origin, velocity } => Action::Fireball { origin, velocity },
        Command::Exit => Action::Exit,
    }
}

/// How many commands are due: as many from the first on as are not later.
pub open spec fn due(queue: Seq<Timed>, now: Scalar) -> int
    decreases queue.len(),
{
    if queue.len() == 0 || queue[0].time.gt(now) {
        0
    } else {
        1 + due(queue.skip(1), now)
    }
}

/// The client's body after the first `n` commands.
pub open spec fn state_at(state: ObserverState, queue: Seq<Timed>, n: int) -> ObserverState
    decreases n,
{
    if n <= 0 {
        state
    } else {
        state_after(state_at(state, queue, n - 1), queue[n - 1].command)
    }
}

/// A command that was carried out, and what it has the client send.
#[derive(Clone, Copy, Debug, PartialEq, Eq, Structural)]
pub struct Done {
    pub timed: Timed,
    pub action: Action,
}

/// Carries out the commands that are due, in their order.
pub fn advance_script(script: &mut ScriptedCommands, state: &mut ObserverState, now: Scalar) -> (r:
    Vec<Done>)
    ensures
        ({
            let n = due(old(script).queue@, now);
            &&& r@.len() == n
            &&& final(script).queue@ == old(script).queue@.skip(n)
            &&& *final(state) == state_at(*old(state), old(script).queue@, n)
            &&& forall|i: int|
                0 <= i < n ==> #[trigger] r@[i] == (Done {
                    timed: old(script).queue@[i],
                    action: action_of(
                        state_at(*old(state), old(script).queue@, i),
                        old(script).queue@[i].command,
                    ),
                })
        }),
{
    let mut done: Vec<Done> = Vec::new();
    let ghost all = script.queue@;
    assert(all.skip(0) =~= all);
    while script.queue.len() > 0
        invariant_except_break
            script.queue@ == all.skip(done@.len() as int),
        invariant
            all == old(script).queue@,
            done@.len() <= all.len(),
            due(all, now) == done@.len() + due(all.skip(done@.len() as int), now),
            *state == state_at(*old(state), all, done@.len() as int),
            forall|i: int|
                0 <= i < done@.len() ==> #[trigger] done@[i] == (Done {
                    timed: all[i],
                    action: action_of(state_at(*old(state), all, i), all[i].command),
                }),
        ensures
            script.queue@ == all.skip(done@.len() as int),
            due(all.skip(done@.len() as int), now) == 0,
        decreases script.queue.len(),
    {
        if script.queue[0].time.gt(now) {
            break;
        }
        assert(all.skip(done@.len() as int).skip(1) =~= all.skip(done@.len() as int + 1));
        if let Some(timed) = script.queue.pop_front() {
            done.push(Done { timed, action: action_of(*state, timed.command) });
            *state = state_after(*state, timed.command);
        }
    }
    done
}

/// The ball of fire that a client throws.
pub fn fireball_message(origin: Vec3, velocity: Vec3) -> (r: SpawnBodyMessage)
    ensures
        r.origin == origin,
        r.velocity == velocity,
        r.shape == (PropShape::Sphere { radius: fireball_radius() }),
        r.mass == fireball_mass(),
        r.friction == fireball_friction(),
        r.linear_damping == fireball_damping(),
        r.angular_damping == fireball_damping(),
        r.restitution == fireball_restitution(),
        r.tint_seed == zero(),
        r.tint == Vec3::origin(),
        r.parent_cast is Some,
        r.parent_cast->Some_0.spell_id@ == "fireball"@,
        r.parent_cast->Some_0.cast_id@ == "fireball.throw"@,
        r.parent_cast->Some_0.captured_charge == Some(one()),
        r.parent_cast->Some_0.chain_depth == 0,
{
    SpawnBodyMessage {
        origin,
        velocity,
        shape: PropShape::Sphere { radius: fireball_radius() },
        mass: fireball_mass(),
        friction: fireball_friction(),
        linear_damping: fireball_damping(),
        angular_damping: fireball_damping(),
        restitution: fireball_restitution(),
        tint_seed: zero(),
        tint: Vec3::origin(),
        parent_cast: Some(
            ParentCastInfo {
                spell_id: "fireball".to_owned(),
                cast_id: "fireball.throw".to_owned(),
                captured_charge: Some(one()),
                chain_depth: 0,
            },
        ),
    }
}

/// A script runs in the order of its times, wherever its lines stand, and no
/// command is lost or made up.
pub proof fn law_script_is_in_order(commands: Seq<Timed>)
    requires
        forall|k: int| 0 <= k < commands.len() ==> !(#[trigger] commands[k]).time.is_nan(),
    ensures
        in_order(commands).to_multiset() == commands.to_multiset(),
        forall|i: int, j: int|
            0 <= i < j < in_order(commands).len() ==> (#[trigger] in_order(commands)[i]).time.le(
                (#[trigger] in_order(commands)[j]).time,
            ),
    decreases commands.len(),
{
    lemma_in_order_len(commands);
    if commands.len() > 0 {
        let rest = commands.drop_last();
        let last = commands.last();
        assert forall|k: int| 0 <= k < rest.len() implies !(#[trigger] rest[k]).time.is_nan() by {
            assert(rest[k] == commands[k]);
        }
        law_script_is_in_order(rest);
        let before = in_order(rest);
        let p = place_for(before, last.time);
        let after = in_order(commands);
        lemma_in_order_len(rest);
        lemma_place_for(before, last.time);
        broadcast use vstd::seq_lib::group_to_multiset_ensures;

        assert(commands =~= rest.push(last));
        assert(after.to_multiset() =~= before.to_multiset().insert(last)) by {
            assert(after.remove(p) =~= before);
        }
        assert(!last.time.is_nan());
        assert forall|k: int| 0 <= k < before.len() implies !(#[trigger] before[k]).time.is_nan() by {
            assert(before.to_multiset().count(before[k]) > 0);
            assert(rest.to_multiset().count(before[k]) > 0);
            assert(rest.contains(before[k]));
        }
        assert forall|i: int, j: int| 0 <= i < j < after.len() implies (#[trigger] after[i]).time.le(
            (#[trigger] after[j]).time,
        ) by {
            if j < p {
                assert(after[i] == before[i] && after[j] == before[j]);
            } else if j == p {
                assert(after[i] == before[i]);
                assert(before[i].time.le(before[p - 1].time) || i == p - 1);
            } else if i < p {
                assert(after[i] == before[i] && after[j] == before[j - 1]);
            } else if i == p {
                assert(after[j] == before[j - 1]);
            } else {
                assert(after[i] == before[i - 1] && after[j] == before[j - 1]);
            }
        }
    } else {
        assert(commands =~= in_order(commands));
    }
}

proof fn lemma_in_order_len(commands: Seq<Timed>)
    ensures
        in_order(commands).len() == commands.len(),
    decreases commands.len(),
{
    if commands.len() > 0 {
        lemma_in_order_len(commands.drop_last());
        lemma_place_for(in_order(commands.drop_last()), commands.last().time);
    }
}

} // verus!
