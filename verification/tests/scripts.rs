use serde_json::{Number, Value};
use wisp::net::address::{netcode_key, parse_addr_args, Endpoint, DEFAULT_PORT, PROTOCOL_ID, TICK_HZ};
use wisp::observer::{
    advance_script, fireball_message, is_space, on_connected_observer, parse_line, parse_vec3,
    send_simulated_position, split_words, Action, Command, Done, ObserverState, Reading,
    ScriptedCommands, Timed,
};
use wisp::scalar::Scalar;
use wisp::spells::portal::PortalSlot;
use wisp::text::{begins_with, number_from};
use wisp::trace::{event, merge_fields};
use wisp::vector::{Quat, Vec2, Vec3};

fn s(x: f32) -> Scalar {
    Scalar::from_bits(x.to_bits())
}

fn f(x: Scalar) -> f32 {
    f32::from_bits(x.to_bits())
}

fn v(x: f32, y: f32, z: f32) -> Vec3 {
    Vec3::new(s(x), s(y), s(z))
}

fn numbers(words: &Vec<String>) -> Vec<Option<Reading>> {
    words
        .iter()
        .map(|word| {
            let value: f32 = word.parse().ok()?;
            let half = value / 2.0;
            let turn = Quat { x: s(0.0), y: s(half.sin()), z: s(0.0), w: s(half.cos()) };
            Some(Reading { value: s(value), turn })
        })
        .collect()
}

fn parse(line: &str) -> Option<Timed> {
    let words = split_words(line);
    parse_line(&words, &numbers(&words))
}

fn texts(args: &[&str]) -> Vec<String> {
    args.iter().map(|a| a.to_string()).collect()
}

#[test]
fn a_line_is_cut_into_words() {
    assert_eq!(split_words("  0.5\tgoto 0  1.5 -2\n"), texts(&["0.5", "goto", "0", "1.5", "-2"]));
    assert_eq!(split_words(""), texts(&[]));
    assert_eq!(split_words("   # nothing but a remark"), texts(&[]));
    assert_eq!(split_words("1 exit # and no more"), texts(&["1", "exit"]));
    assert_eq!(split_words("1\u{a0}exit\u{3000}\u{2003}x"), texts(&["1", "exit", "x"]));
}

#[test]
fn white_space_is_what_the_language_calls_so() {
    for code in 0..0x3100_u32 {
        if let Some(c) = char::from_u32(code) {
            assert_eq!(is_space(c), c.is_whitespace(), "{:x}", code);
        }
    }
}

#[test]
fn every_command_has_its_line() {
    let cases = [
        ("0.5 goto 0 1.5 -2", Command::Goto { pos: v(0.0, 1.5, -2.0) }),
        ("0.5 forward 0 0 -1", Command::Forward { dir: v(0.0, 0.0, -1.0) }),
        ("0.5 move_input 1 -1", Command::MoveInput { axis: Vec2 { x: s(1.0), y: s(-1.0) } }),
        (
            "0.5 throw_lantern 0 1.5 -2 0 3 -6",
            Command::ThrowLantern { origin: v(0.0, 1.5, -2.0), velocity: v(0.0, 3.0, -6.0) },
        ),
        ("0.5 pickup_lantern", Command::PickupLantern),
        (
            "0.5 beam 0 1 2 0 0 -1 30 0.25",
            Command::Beam {
                origin: v(0.0, 1.0, 2.0),
                direction: v(0.0, 0.0, -1.0),
                range: s(30.0),
                magnitude: s(0.25),
            },
        ),
        (
            "0.5 place_portal primary 1 2 3 0 1 0",
            Command::PlacePortal {
                slot: PortalSlot::Primary,
                position: v(1.0, 2.0, 3.0),
                normal: v(0.0, 1.0, 0.0),
            },
        ),
        (
            "0.5 place_portal secondary 1 2 3 0 1 0",
            Command::PlacePortal {
                slot: PortalSlot::Secondary,
                position: v(1.0, 2.0, 3.0),
                normal: v(0.0, 1.0, 0.0),
            },
        ),
        (
            "0.5 throw_fireball 1 2 3 4 5 6",
            Command::ThrowFireball { origin: v(1.0, 2.0, 3.0), velocity: v(4.0, 5.0, 6.0) },
        ),
        ("0.5 exit", Command::Exit),
    ];
    for (line, command) in cases {
        assert_eq!(parse(line), Some(Timed { time: s(0.5), command }), "{}", line);
    }
    let look = parse("0.5 look 3");
    assert!(matches!(look, Some(Timed { command: Command::Look { yaw, .. }, .. }) if f(yaw) == 3.0));
}

#[test]
fn a_line_that_lacks_something_makes_no_command() {
    let lines = [
        "",
        "1.0",
        "exit",
        "soon exit",
        "1 goto 0 1",
        "1 goto 0 one 2",
        "1 look",
        "1 forward 0 0",
        "1 move_input 1",
        "1 throw_lantern 0 1.5 -2 0 3",
        "1 beam 0 1 2 0 0 -1 30",
        "1 place_portal",
        "1 place_portal third 1 2 3 0 1 0",
        "1 place_portal primary 1 2 3 0 1",
        "1 throw_fireball 1 2 3",
        "1 dance",
    ];
    for line in lines {
        assert_eq!(parse(line), None, "{}", line);
    }
}

#[test]
fn three_numbers_make_a_vector() {
    assert_eq!(parse_vec3(&vec![Some(s(1.0)), Some(s(2.0)), Some(s(3.0))]), Some(v(1.0, 2.0, 3.0)));
    assert_eq!(
        parse_vec3(&vec![Some(s(1.0)), Some(s(2.0)), Some(s(3.0)), None]),
        Some(v(1.0, 2.0, 3.0))
    );
    assert_eq!(parse_vec3(&vec![Some(s(1.0)), None, Some(s(3.0))]), None);
    assert_eq!(parse_vec3(&vec![Some(s(1.0)), Some(s(2.0))]), None);
}

#[test]
fn a_script_runs_by_its_times() {
    let script = ["2.0  exit", "0.5  goto 0 1.5 -2", "1.0  throw_lantern 0 1.5 -2 0 3 -6"];
    let commands: Vec<Timed> = script.iter().filter_map(|line| parse(line)).collect();
    let mut script = ScriptedCommands::new(&commands);
    assert_eq!(script.queue, vec![commands[1], commands[2], commands[0]]);

    let mut state = ObserverState::default();
    assert_eq!(send_simulated_position(state), None);
    on_connected_observer(&mut state, v(3.0, 1.0, 3.0));
    assert_eq!(state.pos, v(3.0, 1.0, 3.0));
    assert_eq!(state.forward, v(0.0, 0.0, -1.0));
    assert!(send_simulated_position(state).is_some());

    assert_eq!(advance_script(&mut script, &mut state, s(0.25)), vec![]);
    assert_eq!(script.queue.len(), 3);
    let done = advance_script(&mut script, &mut state, s(0.5));
    assert_eq!(done, vec![Done { timed: commands[1], action: Action::Moved }]);
    assert_eq!(state.pos, v(0.0, 1.5, -2.0));
    let done = advance_script(&mut script, &mut state, s(5.0));
    assert_eq!(done.len(), 2);
    assert!(matches!(done[0].action, Action::Throw(msg) if msg.velocity == v(0.0, 3.0, -6.0)));
    assert_eq!(done[1].action, Action::Exit);
    assert_eq!(script.queue, vec![]);
}

#[test]
fn commands_of_one_time_stay_as_they_stood() {
    let commands: Vec<Timed> =
        ["1 look 1", "0 look 2", "1 look 3", "0 look 4"].iter().filter_map(|l| parse(l)).collect();
    let script = ScriptedCommands::new(&commands);
    assert_eq!(script.queue, vec![commands[1], commands[3], commands[0], commands[2]]);
}

#[test]
fn a_pickup_is_asked_for_from_where_the_client_stands() {
    let commands: Vec<Timed> =
        ["0 goto 1 2 3", "0 pickup_lantern", "0 move_input 0 1", "0 forward 1 0 0"]
            .iter()
            .filter_map(|l| parse(l))
            .collect();
    let mut script = ScriptedCommands::new(&commands);
    let mut state = ObserverState::default();
    on_connected_observer(&mut state, v(0.0, 0.0, 0.0));
    let done = advance_script(&mut script, &mut state, s(0.0));
    assert!(matches!(done[1].action, Action::Pickup(msg) if msg.player_position == v(1.0, 2.0, 3.0)));
    assert_eq!(state.movement, Vec2 { x: s(0.0), y: s(1.0) });
    assert_eq!(state.pos, v(2.0, 2.0, 3.0));
    assert_eq!(send_simulated_position(state).unwrap().movement, state.movement);
}

#[test]
fn a_look_turns_the_client() {
    let commands = vec![parse("0 look 1.5707964").unwrap()];
    let mut script = ScriptedCommands::new(&commands);
    let mut state = ObserverState::default();
    on_connected_observer(&mut state, v(0.0, 0.0, 0.0));
    advance_script(&mut script, &mut state, s(0.0));
    assert_eq!(state.yaw, s(1.5707964));
    assert!((f(state.forward.x) + 1.0).abs() < 1e-6);
    assert!(f(state.forward.z).abs() < 1e-6);
    assert_eq!(send_simulated_position(state).unwrap().yaw, state.yaw);
}

#[test]
fn a_ball_of_fire_knows_its_spell() {
    let msg = fireball_message(v(1.0, 2.0, 3.0), v(0.0, 0.0, -12.0));
    let parent = msg.parent_cast.unwrap();
    assert_eq!(parent.spell_id, "fireball");
    assert_eq!(parent.cast_id, "fireball.throw");
    assert_eq!(parent.captured_charge, Some(s(1.0)));
    assert_eq!(parent.chain_depth, 0);
    assert_eq!(msg.origin, v(1.0, 2.0, 3.0));
    assert_eq!(msg.velocity, v(0.0, 0.0, -12.0));
}

#[test]
fn numbers_are_read_as_far_as_they_fit() {
    assert_eq!(number_from("5000", 0, 65535), Some(5000));
    assert_eq!(number_from("+7", 0, 65535), Some(7));
    assert_eq!(number_from("0065535", 0, 65535), Some(65535));
    assert_eq!(number_from("65536", 0, 65535), None);
    assert_eq!(number_from("99999999999999999999", 0, 65535), None);
    assert_eq!(number_from("-1", 0, 65535), None);
    assert_eq!(number_from("+", 0, 65535), None);
    assert_eq!(number_from("", 0, 65535), None);
    assert_eq!(number_from("1 ", 0, 65535), None);
    assert_eq!(number_from("Top12", 3, 255), Some(12));
    for text in ["0", "00", "+0", "++1", "12a", "65535", "65536", "+65535", "-0", "٣"] {
        assert_eq!(number_from(text, 0, 65535), text.parse::<u16>().ok().map(u32::from), "{}", text);
    }
    assert!(begins_with("Eyes01", "Eyes"));
    assert!(begins_with("Eyes", "Eyes"));
    assert!(begins_with("Eyes", ""));
    assert!(!begins_with("Eye", "Eyes"));
    assert!(!begins_with("Eyebrows", "Eyes"));
}

fn endpoint(args: &[&str]) -> (u32, u16) {
    let args = texts(args);
    let addresses: Vec<Option<u32>> =
        args.iter().map(|a| if a == "10.0.0.7" { Some(0x0a00_0007) } else { None }).collect();
    let end = parse_addr_args(&args, &addresses, Endpoint { ip: 0x7f00_0001, port: DEFAULT_PORT });
    (end.ip, end.port)
}

#[test]
fn arguments_name_an_endpoint() {
    assert_eq!(endpoint(&[]), (0x7f00_0001, 5000));
    assert_eq!(endpoint(&["wisp"]), (0x7f00_0001, 5000));
    assert_eq!(endpoint(&["wisp", "--ip", "10.0.0.7"]), (0x0a00_0007, 5000));
    assert_eq!(endpoint(&["wisp", "--port", "6000"]), (0x7f00_0001, 6000));
    assert_eq!(endpoint(&["wisp", "--port", "6000", "--ip", "10.0.0.7"]), (0x0a00_0007, 6000));
    assert_eq!(endpoint(&["wisp", "--port", "1", "--port", "2"]), (0x7f00_0001, 2));
    assert_eq!(endpoint(&["wisp", "-v", "--port", "2"]), (0x7f00_0001, 2));
}

#[test]
fn what_makes_no_sense_leaves_the_endpoint() {
    assert_eq!(endpoint(&["wisp", "--ip", "here"]), (0x7f00_0001, 5000));
    assert_eq!(endpoint(&["wisp", "--port", "70000"]), (0x7f00_0001, 5000));
    assert_eq!(endpoint(&["wisp", "--port"]), (0x7f00_0001, 5000));
    assert_eq!(endpoint(&["--port", "6000"]), (0x7f00_0001, 5000));
    assert_eq!(endpoint(&["wisp", "--ip", "--port", "6000"]), (0x7f00_0001, 5000));
    assert_eq!(endpoint(&["wisp", "some", "words"]), (0x7f00_0001, 5000));
}

#[test]
fn both_ends_agree_on_the_protocol() {
    assert_eq!(netcode_key(), [0u8; 32]);
    assert_eq!(PROTOCOL_ID, 0);
    assert_eq!(TICK_HZ, 60);
}

fn number(x: f64) -> Value {
    Value::Number(Number::from_f64(x).unwrap())
}

fn object(fields: &[(&str, Value)]) -> Value {
    let mut map = serde_json::Map::new();
    for (name, value) in fields {
        map.insert(name.to_string(), value.clone());
    }
    Value::Object(map)
}

#[test]
fn a_line_tells_what_happened() {
    let line = event(number(1.5), "server", "spawn", object(&[("id", Value::from(7))]));
    assert_eq!(line, "{\"id\":7,\"kind\":\"spawn\",\"src\":\"server\",\"t\":1.5}\n");
}

#[test]
fn a_happening_may_name_what_every_line_has() {
    let extra = object(&[("src", Value::from("elsewhere")), ("t", Value::from(9))]);
    let line = event(number(1.5), "server", "spawn", extra);
    let back: Value = serde_json::from_str(&line).unwrap();
    assert_eq!(
        back,
        object(&[
            ("t", Value::from(9)),
            ("src", Value::from("elsewhere")),
            ("kind", Value::from("spawn")),
        ])
    );
}

#[test]
fn what_is_no_object_adds_nothing() {
    for extra in [Value::Null, Value::from(3), Value::from("text"), Value::Array(vec![])] {
        let line = event(number(0.0), "a\"b", "tick", extra);
        assert_eq!(line, "{\"kind\":\"tick\",\"src\":\"a\\\"b\",\"t\":0.0}\n");
    }
}

#[test]
fn fields_are_taken_over() {
    let mut into = serde_json::Map::new();
    into.insert("a".to_string(), Value::from(1));
    into.insert("b".to_string(), Value::from(2));
    let mut from = serde_json::Map::new();
    from.insert("b".to_string(), Value::from(3));
    from.insert("c".to_string(), Value::from(4));
    merge_fields(&mut into, from);
    assert_eq!(into.len(), 3);
    assert_eq!(into.get("a"), Some(&Value::from(1)));
    assert_eq!(into.get("b"), Some(&Value::from(3)));
    assert_eq!(into.get("c"), Some(&Value::from(4)));
}
