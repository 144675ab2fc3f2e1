//! Local ports: the order in which the ports of a range are tried, and the address
//! that a socket is bound to.

use rand::Rng;
use vstd::prelude::*;
use vstd::string::StringExecFns;

use crate::text::{decimal, push_decimal};

verus! {

/// How many ports there are from `start` to `end`, both counted.
pub open spec fn port_count(start: u16, end: u16) -> int {
    end - start + 1
}

/// The port to try after `i` others, where the first one is `offset` above `start`:
/// upwards from there, and on from `start` after `end`.
pub open spec fn port_at(start: u16, end: u16, offset: u32, i: u32) -> u16 {
    (start + (offset + i) % port_count(start, end)) as u16
}

/// The address of every interface, with `port`.
pub open spec fn any_address(v4: bool, port: u16) -> Seq<char> {
    (if v4 {
        "0.0.0.0:"@
    } else {
        "[::]:"@
    }) + decimal(port as nat)
}

/// A number below `count`, drawn by `rand::thread_rng` with `Rng::gen_range`, which
/// panics where there is none. Which one it is, is left to chance. On a system that
/// has no randomness to seed it with, `thread_rng` panics.
#[verifier::external_body]
pub(crate) fn random_below(count: u32) -> (n: u32)
    requires
        count > 0,
    ensures
        n < count,
{
    rand::thread_rng().gen_range(0..count)
}

/// The port to try after `i` others.
pub fn port(start: u16, end: u16, offset: u32, i: u32) -> (p: u16)
    requires
        start <= end,
        offset < port_count(start, end),
        i < port_count(start, end),
    ensures
        p == port_at(start, end, offset, i),
        start <= p <= end,
{
    let count: u32 = (end - start) as u32 + 1;
    start + ((offset + i) % count) as u16
}

/// The address to bind a socket to: every interface, of the family of the target.
pub fn bind_address(v4: bool, port: u16) -> (address: String)
    ensures
        address@ == any_address(v4, port),
{
    let mut address: String = if v4 {
        "0.0.0.0:".to_owned()
    } else {
        "[::]:".to_owned()
    };
    push_decimal(&mut address, port as u64);
    address
}

/// The ports of a range, in the order in which they are tried.
pub open spec fn ports(start: u16, end: u16, offset: u32) -> Seq<u16> {
    Seq::new(
        port_count(start, end) as nat,
        |i: int| port_at(start, end, offset, i as u32),
    )
}

/// Every port of a range is tried, none twice, and no other port.
pub proof fn law_ports(start: u16, end: u16, offset: u32)
    requires
        start <= end,
        offset < port_count(start, end),
    ensures
        ports(start, end, offset).no_duplicates(),
        forall|p: u16| #[trigger] ports(start, end, offset).contains(p) <==> start <= p <= end,
{
    let count = port_count(start, end);
    let all = ports(start, end, offset);
    assert forall|i: int| 0 <= i < count implies #[trigger] all[i] - start == (if offset + i
        < count {
        offset + i
    } else {
        offset + i - count
    }) by {
        lemma_wrap(offset + i, count);
    }
    assert forall|p: u16| start <= p <= end implies #[trigger] all.contains(p) by {
        let i: int = if p - start >= offset {
            p - start - offset
        } else {
            p - start - offset + count
        };
        assert(all[i] == p);
    }
}

proof fn lemma_wrap(n: int, count: int)
    requires
        0 <= n < 2 * count,
    ensures
        n % count == (if n < count {
            n
        } else {
            n - count
        }),
{
    if n < count {
        vstd::arithmetic::div_mod::lemma_small_mod(n as nat, count as nat);
    } else {
        vstd::arithmetic::div_mod::lemma_fundamental_div_mod_converse(n, count, 1, n - count);
    }
}

/// Ports are tried upwards from the one `offset` above the first, and from the first
/// on after the last.
pub proof fn law_port_order(start: u16, end: u16, offset: u32, i: int)
    requires
        start <= end,
        offset <= end - start,
        0 <= i <= end - start,
    ensures
        ports(start, end, offset).len() == end - start + 1,
        ports(start, end, offset)[0] == start + offset,
        i < end - start ==> ports(start, end, offset)[i + 1] == (if ports(start, end, offset)[i]
            == end {
            start as int
        } else {
            ports(start, end, offset)[i] + 1
        }),
{
    let count = port_count(start, end);
    lemma_wrap(offset as int, count);
    lemma_wrap(offset + i, count);
    if i < end - start {
        lemma_wrap(offset + i + 1, count);
    }
}

/// A socket is bound to every interface, of the family of its target, and to the port
/// that is tried.
pub proof fn law_any_address(port: u16)
    ensures
        any_address(true, port) == "0.0.0.0:"@ + decimal(port as nat),
        any_address(false, port) == "[::]:"@ + decimal(port as nat),
{
}

} // verus!
