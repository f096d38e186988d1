//! Where the intake listens and where launchers reach it: only on this machine.

use crate::text::{chars_of, debug_of, debug_text, same_text, starts_with, string_of};
use vstd::prelude::*;

verus! {

/// The endpoint of the named pipe.
pub const PIPE_ENDPOINT: &'static str = "npipe://Sembazuru.LocalIntake.v1";

/// An internet address.
#[derive(Clone, Copy, Debug, PartialEq, Eq, Structural)]
pub enum IpAddress {
    /// Its four bytes as one number, the first one highest.
    V4(u32),
    /// Its sixteen bytes as one number, the first one highest.
    V6(u128),
}

impl IpAddress {
    /// Whether it is an address of this machine itself.
    pub open spec fn loopback(self) -> bool {
        match self {
            IpAddress::V4(a) => a / 0x1000000 == 127,
            IpAddress::V6(a) => a == 1,
        }
    }

    pub fn is_loopback(&self) -> (r: bool)
        ensures
            r == self.loopback(),
    {
        match self {
            IpAddress::V4(a) => *a / 0x1000000 == 127,
            IpAddress::V6(a) => *a == 1,
        }
    }
}

/// An address that a name stands for.
#[derive(Debug, Clone, PartialEq, Eq)]
pub struct ResolvedAddress {
    pub ip: IpAddress,
    pub port: u16,
    /// How it is written.
    pub text: String,
}

/// The first of the addresses that is not one of this machine.
pub open spec fn first_remote(list: Seq<ResolvedAddress>) -> Option<Seq<char>>
    decreases list.len(),
{
    if list.len() == 0 {
        None
    } else if !list[0].ip.loopback() {
        Some(list[0].text@)
    } else {
        first_remote(list.drop_first())
    }
}

/// What is wrong with an address to listen at, if anything is; `resolved` is what
/// the name `addr` stands for.
pub open spec fn loopback_problem(
    addr: Seq<char>,
    plane: Seq<char>,
    resolved: Result<Seq<ResolvedAddress>, Seq<char>>,
) -> Option<Seq<char>> {
    match resolved {
        Err(e) => Some("invalid "@ + plane + " address "@ + debug_text(addr) + ": "@ + e),
        Ok(list) => if list.len() == 0 {
            Some(plane + " address "@ + debug_text(addr) + " resolved to no socket address"@)
        } else {
            match first_remote(list) {
                Some(bad) => Some(
                    "refusing to bind "@ + plane + " to non-loopback address "@ + bad
                        + ": this plane is loopback-only (same-machine access). Use a loopback address such as 127.0.0.1:<port>."@,
                ),
                None => None,
            }
        },
    }
}

/// The address to listen at: the first that the name `addr` stands for, where all of
/// them are of this machine.
pub fn require_loopback(
    addr: &str,
    plane: &str,
    resolved: Result<Vec<ResolvedAddress>, String>,
) -> (r: Result<ResolvedAddress, String>)
    ensures
        match loopback_problem(
            addr@,
            plane@,
            match resolved {
                Ok(list) => Ok(list@),
                Err(e) => Err(e@),
            },
        ) {
            Some(problem) => r matches Err(m) && m@ == problem,
            None => {
                &&& r matches Ok(a) && a.ip == resolved->Ok_0@[0].ip && a.port
                    == resolved->Ok_0@[0].port && a.text@ == resolved->Ok_0@[0].text@
            },
        },
{
    match resolved {
        Err(e) => {
            let mut m = "invalid ".to_owned();
            m.append(plane);
            m.append(" address ");
            m.append(debug_of(addr).as_str());
            m.append(": ");
            m.append(e.as_str());
            Err(m)
        },
        Ok(list) => {
            if list.len() == 0 {
                let mut m = plane.to_owned();
                m.append(" address ");
                m.append(debug_of(addr).as_str());
                m.append(" resolved to no socket address");
                return Err(m);
            }
            let ghost all = list@;
            let mut i: usize = 0;
            assert(all.skip(0) =~= all);
            while i < list.len()
                invariant
                    i <= list@.len(),
                    list@.len() > 0,
                    all == list@,
                    resolved == Ok::<Vec<ResolvedAddress>, String>(list),
                    first_remote(all) == first_remote(all.skip(i as int)),
                decreases list@.len() - i,
            {
                assert(all.skip(i as int)[0] == list@[i as int]);
                if !list[i].ip.is_loopback() {
                    let mut m = "refusing to bind ".to_owned();
                    m.append(plane);
                    m.append(" to non-loopback address ");
                    m.append(list[i].text.as_str());
                    m.append(
                        ": this plane is loopback-only (same-machine access). Use a loopback address such as 127.0.0.1:<port>.",
                    );
                    return Err(m);
                }
                assert(all.skip(i as int).drop_first() =~= all.skip(i + 1));
                i = i + 1;
            }
            Ok(ResolvedAddress { ip: list[0].ip, port: list[0].port, text: list[0].text.clone() })
        },
    }
}

/// The address of the intake.
pub fn resolve_loopback_intake(
    addr: &str,
    resolved: Result<Vec<ResolvedAddress>, String>,
) -> (r: Result<ResolvedAddress, String>)
    ensures
        match loopback_problem(
            addr@,
            "LocalIntake"@,
            match resolved {
                Ok(list) => Ok(list@),
                Err(e) => Err(e@),
            },
        ) {
            Some(problem) => r matches Err(m) && m@ == problem,
            None => {
                &&& r matches Ok(a) && a.ip == resolved->Ok_0@[0].ip && a.port
                    == resolved->Ok_0@[0].port && a.text@ == resolved->Ok_0@[0].text@
            },
        },
{
    require_loopback(addr, "LocalIntake", resolved)
}

/// One address elsewhere is enough to refuse a name.
pub proof fn law_every_address_is_local(
    addr: Seq<char>,
    plane: Seq<char>,
    list: Seq<ResolvedAddress>,
    i: int,
)
    requires
        0 <= i < list.len(),
        !list[i].ip.loopback(),
    ensures
        loopback_problem(addr, plane, Ok::<Seq<ResolvedAddress>, Seq<char>>(list)) is Some,
{
    lemma_first_remote(list, i);
}

proof fn lemma_first_remote(list: Seq<ResolvedAddress>, i: int)
    requires
        0 <= i < list.len(),
        !list[i].ip.loopback(),
    ensures
        first_remote(list) is Some,
    decreases list.len(),
{
    if list[0].ip.loopback() {
        assert(list.drop_first()[i - 1] == list[i]);
        lemma_first_remote(list.drop_first(), i - 1);
    }
}

/// How the intake is reached.
#[derive(Debug, Clone, PartialEq, Eq)]
pub enum LocalIntakeTransport {
    /// At an address of this machine.
    LoopbackTcp(ResolvedAddress),
    /// Through the named pipe.
    NamedPipe,
}

/// What an endpoint asks for.
pub enum EndpointChoice {
    /// The address by this name.
    Tcp(String),
    NamedPipe,
}

/// An endpoint without the scheme `http://`.
pub open spec fn without_scheme(endpoint: Seq<char>) -> Seq<char> {
    if endpoint.len() >= "http://"@.len() && endpoint.take("http://"@.len() as int) == "http://"@ {
        endpoint.skip("http://"@.len() as int)
    } else {
        endpoint
    }
}

fn strip_scheme(endpoint: &str) -> (r: String)
    ensures
        r@ == without_scheme(endpoint@),
{
    if starts_with(endpoint, "http://") {
        let chars = chars_of(endpoint);
        proof {
            reveal_strlit("http://");
        }
        let r = string_of(&chars, 7, chars.len());
        assert(r@ =~= endpoint@.skip(7));
        r
    } else {
        endpoint.to_owned()
    }
}

impl LocalIntakeTransport {
    /// Where the daemon listens for an endpoint of its configuration, and where a
    /// launcher connects. On Windows it is the named pipe and nothing else.
    pub fn production_server(endpoint: &str, windows: bool) -> (r: Result<EndpointChoice, String>)
        ensures
            if windows {
                if endpoint@ == PIPE_ENDPOINT@ {
                    r matches Ok(EndpointChoice::NamedPipe)
                } else {
                    r matches Err(m) && m@ == "Windows LocalIntake must use "@ + PIPE_ENDPOINT@
                        + "; refusing legacy or unauthenticated endpoint "@ + debug_text(endpoint@)
                }
            } else {
                r matches Ok(EndpointChoice::Tcp(a)) && a@ == without_scheme(endpoint@)
            },
    {
        if !windows {
            return Ok(EndpointChoice::Tcp(strip_scheme(endpoint)));
        }
        if same_text(endpoint, PIPE_ENDPOINT) {
            return Ok(EndpointChoice::NamedPipe);
        }
        let mut m = "Windows LocalIntake must use ".to_owned();
        m.append(PIPE_ENDPOINT);
        m.append("; refusing legacy or unauthenticated endpoint ");
        m.append(debug_of(endpoint).as_str());
        Err(m)
    }

    /// Where a launcher connects for its endpoint.
    pub fn from_endpoint(endpoint: &str, windows: bool) -> (r: Result<EndpointChoice, String>)
        ensures
            if windows {
                if endpoint@ == PIPE_ENDPOINT@ {
                    r matches Ok(EndpointChoice::NamedPipe)
                } else {
                    r matches Err(m) && m@ == "Windows LocalIntake must use "@ + PIPE_ENDPOINT@
                        + "; refusing legacy or unauthenticated endpoint "@ + debug_text(endpoint@)
                }
            } else {
                r matches Ok(EndpointChoice::Tcp(a)) && a@ == without_scheme(endpoint@)
            },
    {
        LocalIntakeTransport::production_server(endpoint, windows)
    }

    /// The transport at an address, which has to be one of this machine.
    pub fn loopback_tcp(addr: &str, resolved: Result<Vec<ResolvedAddress>, String>) -> (r: Result<
        LocalIntakeTransport,
        String,
    >)
        ensures
            match loopback_problem(
                addr@,
                "LocalIntake"@,
                match resolved {
                    Ok(list) => Ok(list@),
                    Err(e) => Err(e@),
                },
            ) {
                Some(problem) => r matches Err(m) && m@ == problem,
                None => {
                    &&& r matches Ok(LocalIntakeTransport::LoopbackTcp(a)) && a.ip
                        == resolved->Ok_0@[0].ip && a.port == resolved->Ok_0@[0].port && a.text@
                        == resolved->Ok_0@[0].text@
                },
            },
    {
        match require_loopback(addr, "LocalIntake", resolved) {
            Ok(a) => Ok(LocalIntakeTransport::LoopbackTcp(a)),
            Err(m) => Err(m),
        }
    }
}

/// An address is one of this machine exactly where it is an IPv4 address from 127.0.0.0 to
/// 127.255.255.255, or the IPv6 address ::1.
pub proof fn law_loopback_addresses(a: u32, b: u128)
    ensures
        IpAddress::V4(a).loopback() <==> 0x7f00_0000 <= a && a <= 0x7fff_ffff,
        IpAddress::V6(b).loopback() <==> b == 1,
{
}

/// A name that stands for at least one address, all of them of this machine, is accepted; a
/// name that stands for none, or that is not understood, is not.
pub proof fn law_local_names_are_accepted(
    addr: Seq<char>,
    plane: Seq<char>,
    list: Seq<ResolvedAddress>,
    why: Seq<char>,
)
    ensures
        loopback_problem(addr, plane, Ok::<Seq<ResolvedAddress>, Seq<char>>(list)) is None
            <==> list.len() > 0 && forall|i: int|
            0 <= i < list.len() ==> (#[trigger] list[i]).ip.loopback(),
        loopback_problem(addr, plane, Err::<Seq<ResolvedAddress>, Seq<char>>(why)) is Some,
{
    if forall|i: int| 0 <= i < list.len() ==> (#[trigger] list[i]).ip.loopback() {
        lemma_none_remote(list);
    } else {
        let i = choose|i: int| 0 <= i < list.len() && !(#[trigger] list[i]).ip.loopback();
        lemma_first_remote(list, i);
    }
}

proof fn lemma_none_remote(list: Seq<ResolvedAddress>)
    requires
        forall|i: int| 0 <= i < list.len() ==> (#[trigger] list[i]).ip.loopback(),
    ensures
        first_remote(list) is None,
    decreases list.len(),
{
    if list.len() > 0 {
        let rest = list.drop_first();
        assert forall|i: int| 0 <= i < rest.len() implies (#[trigger] rest[i]).ip.loopback() by {
            assert(rest[i] == list[i + 1]);
        }
        assert(list[0].ip.loopback());
        lemma_none_remote(rest);
    }
}

/// The scheme `http://` is taken off an endpoint, and nothing else is.
pub proof fn law_schemes_are_taken_off(rest: Seq<char>)
    ensures
        without_scheme("http://"@ + rest) == rest,
        !"http://"@.is_prefix_of(rest) ==> without_scheme(rest) == rest,
{
    let s = "http://"@;
    assert((s + rest).take(s.len() as int) =~= s);
    assert((s + rest).skip(s.len() as int) =~= rest);
    if rest.len() >= s.len() && rest.take(s.len() as int) == s {
        assert(s.is_prefix_of(rest));
    }
}

} // verus!
