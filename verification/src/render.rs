use vstd::prelude::*;

use crate::bytes::push_all;
use crate::status::names_view;
use crate::status::StatusResponse;

verus! {

/// The decimal digits of `n`, most significant first.
pub open spec fn spec_udec(n: nat) -> Seq<u8>
    decreases n,
{
    if n < 10 {
        seq![(48 + n) as u8]
    } else {
        spec_udec(n / 10) + seq![(48 + n % 10) as u8]
    }
}

/// The decimal rendering of `v`, with a leading minus sign when negative.
pub open spec fn spec_idec(v: int) -> Seq<u8> {
    if v < 0 {
        seq![45u8] + spec_udec((-v) as nat)
    } else {
        spec_udec(v as nat)
    }
}

/// The names joined by single spaces.
pub open spec fn spec_joined(names: Seq<Seq<u8>>) -> Seq<u8> {
    if names.len() == 0 {
        Seq::empty()
    } else {
        names[0] + spec_join_rest(names, 1)
    }
}

/// A space before each of the names from `i` on.
pub open spec fn spec_join_rest(names: Seq<Seq<u8>>, i: int) -> Seq<u8>
    decreases names.len() - i,
{
    if 0 <= i < names.len() {
        seq![32u8] + names[i] + spec_join_rest(names, i + 1)
    } else {
        Seq::empty()
    }
}

/// The summary line `<online>/<max> online`, with a trailing colon exactly
/// when sampled names follow.
pub open spec fn spec_summary(online: i64, maxv: i64, has_names: bool) -> Seq<u8> {
    spec_idec(online as int) + seq![47u8] + spec_idec(maxv as int) + seq![
        32u8,
        111u8,
        110u8,
        108u8,
        105u8,
        110u8,
        101u8,
    ] + (if has_names {
        seq![58u8]
    } else {
        Seq::empty()
    })
}

/// Render `n` in decimal.
pub fn u64_dec(n: u64) -> (r: Vec<u8>)
    ensures
        r@ == spec_udec(n as nat),
    decreases n,
{
    if n < 10 {
        let mut v: Vec<u8> = Vec::new();
        v.push(48 + (n as u8));
        proof {
            assert(v@ =~= spec_udec(n as nat));
        }
        v
    } else {
        let mut v = u64_dec(n / 10);
        v.push(48 + ((n % 10) as u8));
        proof {
            assert(v@ =~= spec_udec(n as nat));
        }
        v
    }
}

/// Render `v` in decimal, minus sign included.
pub fn i64_dec(v: i64) -> (r: Vec<u8>)
    ensures
        r@ == spec_idec(v as int),
{
    if v >= 0 {
        u64_dec(v as u64)
    } else {
        let m: u64 = ((-(v + 1)) as u64) + 1;
        let mut out: Vec<u8> = Vec::new();
        out.push(45);
        let digits = u64_dec(m);
        push_all(&mut out, &digits);
        proof {
            assert(out@ =~= spec_idec(v as int));
        }
        out
    }
}

/// Join the sampled names with single spaces, in order.
#[verifier::loop_isolation(false)]
pub fn join_names(names: &Vec<Vec<u8>>) -> (r: Vec<u8>)
    ensures
        r@ == spec_joined(names_view(names@)),
{
    let ghost nv = names_view(names@);
    let mut out: Vec<u8> = Vec::new();
    if names.len() == 0 {
        proof {
            assert(out@ =~= spec_joined(nv));
        }
        return out;
    }
    push_all(&mut out, &names[0]);
    let mut i: usize = 1;
    proof {
        assert(nv[0] == names@[0]@);
    }
    loop
        invariant
            1 <= i <= names@.len(),
            spec_joined(nv) == out@ + spec_join_rest(nv, i as int),
        decreases names@.len() - i,
    {
        if i == names.len() {
            proof {
                assert(out@ + spec_join_rest(nv, i as int) =~= out@);
            }
            return out;
        }
        out.push(32);
        push_all(&mut out, &names[i]);
        i = i + 1;
        proof {
            assert(nv[i - 1] == names@[i - 1]@);
            assert(spec_joined(nv) =~= out@ + spec_join_rest(nv, i as int));
        }
    }
}

/// The selection label `<name> (address: <ip>)` for one saved server.
pub open spec fn spec_label(name: Seq<u8>, address: Seq<u8>) -> Seq<u8> {
    name + seq![32u8, 40u8, 97u8, 100u8, 100u8, 114u8, 101u8, 115u8, 115u8, 58u8, 32u8] + address
        + seq![41u8]
}

/// Render the selection label for one saved server.
pub fn entry_label(name: &Vec<u8>, address: &Vec<u8>) -> (r: Vec<u8>)
    ensures
        r@ == spec_label(name@, address@),
{
    let mut out: Vec<u8> = Vec::new();
    push_all(&mut out, name);
    out.push(32);
    out.push(40);
    out.push(97);
    out.push(100);
    out.push(100);
    out.push(114);
    out.push(101);
    out.push(115);
    out.push(115);
    out.push(58);
    out.push(32);
    push_all(&mut out, address);
    out.push(41);
    proof {
        assert(out@ =~= spec_label(name@, address@));
    }
    out
}

/// Render the summary line for a status response: the counts, `online`,
/// and a colon exactly when sampled names follow.
pub fn summary_line(st: &StatusResponse) -> (r: Vec<u8>)
    ensures
        r@ == spec_summary(st.players_online, st.players_max, st.sampled_names@.len() > 0),
{
    let mut out = i64_dec(st.players_online);
    out.push(47);
    let mx = i64_dec(st.players_max);
    push_all(&mut out, &mx);
    out.push(32);
    out.push(111);
    out.push(110);
    out.push(108);
    out.push(105);
    out.push(110);
    out.push(101);
    if st.sampled_names.len() > 0 {
        out.push(58);
    }
    proof {
        assert(out@ =~= spec_summary(st.players_online, st.players_max, st.sampled_names@.len() > 0));
    }
    out
}

} // verus!
