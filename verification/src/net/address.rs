//! Where the server is.

use crate::table::same_text;
use crate::text::{number_from, number_in};
use vstd::prelude::*;

verus! {

/// The port that a server listens at unless it is told otherwise.
pub const DEFAULT_PORT: u16 = 5000;

/// How many steps the game makes in a second.
pub const TICK_HZ: u32 = 60;

/// What peers have to agree on to talk to each other.
pub const PROTOCOL_ID: u64 = 0;

/// The shared key of games that nobody guards.
pub fn netcode_key() -> (r: [u8; 32])
    ensures
        forall|i: int| 0 <= i < 32 ==> #[trigger] r@[i] == 0,
{
    [0u8; 32]
}

/// An address and a port.
#[derive(Debug)]
pub struct Endpoint<A> {
    pub ip: A,
    pub port: u16,
}

/// The port that a text names, if it names one.
pub open spec fn port_in(text: Seq<char>) -> Option<u16> {
    match number_in(text, 65535) {
        Some(n) => Some(n as u16),
        None => None,
    }
}

/// What the arguments from place `i` on make of an endpoint. A flag and its value
/// go together; a value that makes no sense changes nothing.
pub open spec fn endpoint_from<A>(
    args: Seq<String>,
    addresses: Seq<Option<A>>,
    i: int,
    so_far: Endpoint<A>,
) -> Endpoint<A>
    decreases args.len() - i,
{
    if i < 0 || i >= args.len() {
        so_far
    } else if args[i]@ == "--ip"@ && i + 1 < args.len() {
        endpoint_from(
            args,
            addresses,
            i + 2,
            match addresses[i + 1] {
                Some(ip) => Endpoint { ip, port: so_far.port },
                None => so_far,
            },
        )
    } else if args[i]@ == "--port"@ && i + 1 < args.len() {
        endpoint_from(
            args,
            addresses,
            i + 2,
            match port_in(args[i + 1]@) {
                Some(port) => Endpoint { ip: so_far.ip, port },
                None => so_far,
            },
        )
    } else {
        endpoint_from(args, addresses, i + 1, so_far)
    }
}

/// The endpoint that the arguments of a program name, the first of which is the
/// program's own name. `addresses` holds what each of them is as an address. What
/// is not named, or makes no sense, is that of `default`.
pub fn parse_addr_args<A: Copy>(
    args: &Vec<String>,
    addresses: &Vec<Option<A>>,
    default: Endpoint<A>,
) -> (r: Endpoint<A>)
    requires
        addresses@.len() == args@.len(),
    ensures
        r == endpoint_from(args@, addresses@, 1, default),
{
    let mut so_far = default;
    let mut i: usize = 1;
    while i < args.len()
        invariant
            addresses@.len() == args@.len(),
            1 <= i,
            endpoint_from(args@, addresses@, 1, default) == endpoint_from(
                args@,
                addresses@,
                i as int,
                so_far,
            ),
        decreases args.len() - i,
    {
        proof {
            reveal_strlit("--ip");
            reveal_strlit("--port");
        }
        if same_text(args[i].as_str(), "--ip") && args.len() - i > 1 {
            match addresses[i + 1] {
                Some(ip) => {
                    so_far = Endpoint { ip, port: so_far.port };
                },
                None => {},
            }
            i = if args.len() - i == 2 {
                args.len()
            } else {
                i + 2
            };
        } else if same_text(args[i].as_str(), "--port") && args.len() - i > 1 {
            let text = args[i + 1].as_str();
            assert(text@.skip(0) =~= text@);
            match number_from(text, 0, 65535) {
                Some(port) => {
                    so_far = Endpoint { ip: so_far.ip, port: port as u16 };
                },
                None => {},
            }
            i = if args.len() - i == 2 {
                args.len()
            } else {
                i + 2
            };
        } else {
            i = i + 1;
        }
    }
    so_far
}

/// Arguments without a flag leave the endpoint as it is.
pub proof fn law_no_flag_no_change<A>(
    args: Seq<String>,
    addresses: Seq<Option<A>>,
    i: int,
    default: Endpoint<A>,
)
    requires
        0 <= i,
        forall|k: int|
            0 <= k < args.len() ==> (#[trigger] args[k])@ != "--ip"@ && args[k]@ != "--port"@,
    ensures
        endpoint_from(args, addresses, i, default) == default,
    decreases args.len() - i,
{
    if i < args.len() {
        assert(args[i]@ != "--ip"@ && args[i]@ != "--port"@);
        law_no_flag_no_change(args, addresses, i + 1, default);
    }
}

} // verus!
