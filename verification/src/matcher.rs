//! The OSC address-pattern matcher: glob-style patterns with `*`, `?`,
//! character classes, alternation groups and the recursive-descent
//! `//`, compiled once and matched against any number of addresses.

use vstd::prelude::*;

verus! {

use crate::errors::OscError;
use crate::types::str_bytes;
use crate::types::valid_str_bytes;
use vstd::string::StringSliceAdditionalSpecFns;

/// The first position of `b` in `p[from..end)`, or -1.
pub open spec fn find_byte(p: Seq<u8>, from: int, end: int, b: u8) -> int
    decreases end - from,
{
    if from < 0 || from >= end || from >= p.len() {
        -1
    } else if p[from] == b {
        from
    } else {
        find_byte(p, from + 1, end, b)
    }
}

/// Whether `ch` is named by the class members `p[from..to)`, where a
/// triple `x-y` names the inclusive range between two characters.
pub open spec fn class_members(p: Seq<u8>, from: int, to: int, ch: u8) -> bool
    decreases to - from,
{
    if from < 0 || from >= to || to > p.len() {
        false
    } else if from + 2 < to && p[from + 1] == 45 {
        (p[from] <= ch <= p[from + 2]) || class_members(p, from + 3, to, ch)
    } else {
        ch == p[from] || class_members(p, from + 1, to, ch)
    }
}

/// Whether `ch` matches the class `p[from..to)`; a leading `!` negates
/// the class.
pub open spec fn class_matches(p: Seq<u8>, from: int, to: int, ch: u8) -> bool {
    if from < to && 0 <= from && p[from] == 33 {
        !class_members(p, from + 1, to, ch)
    } else {
        class_members(p, from, to, ch)
    }
}

/// Whether the literal bytes `p[start..e)` are the next bytes of `a`
/// at `ai`.
pub open spec fn lit_prefix(p: Seq<u8>, start: int, e: int, a: Seq<u8>, ai: int) -> bool {
    &&& 0 <= start <= e <= p.len()
    &&& 0 <= ai
    &&& e - start <= a.len() - ai
    &&& p.subrange(start, e) == a.subrange(ai, ai + (e - start))
}

/// Whether the pattern from `pi` matches the address from `ai`.
///
/// `*` and `?` match within one `/`-separated segment; `[...]` matches
/// one character of a class; `{a,b}` matches one of its literal
/// alternatives; a doubled `//` matches across one or more whole
/// intervening segments.
pub open spec fn spec_matches(p: Seq<u8>, pi: int, a: Seq<u8>, ai: int) -> bool
    decreases p.len() - pi, a.len() - ai, 1int,
{
    if pi < 0 || ai < 0 || pi > p.len() || ai > a.len() {
        false
    } else if pi == p.len() {
        ai == a.len()
    } else {
        let c = p[pi];
        if c == 42 {
            spec_matches(p, pi + 1, a, ai) || (ai < a.len() && a[ai] != 47 && spec_matches(
                p,
                pi,
                a,
                ai + 1,
            ))
        } else if c == 63 {
            ai < a.len() && a[ai] != 47 && spec_matches(p, pi + 1, a, ai + 1)
        } else if c == 91 {
            let cb = find_byte(p, pi + 1, p.len() as int, 93);
            pi < cb < p.len() && ai < a.len() && a[ai] != 47 && class_matches(p, pi + 1, cb, a[ai])
                && spec_matches(p, cb + 1, a, ai + 1)
        } else if c == 123 {
            let cb = find_byte(p, pi + 1, p.len() as int, 125);
            pi < cb < p.len() && spec_match_alts(p, pi + 1, cb, a, ai)
        } else if c == 47 && pi + 1 < p.len() && p[pi + 1] == 47 {
            ai < a.len() && a[ai] == 47 && spec_descend(p, pi, a, ai)
        } else {
            ai < a.len() && a[ai] == c && spec_matches(p, pi + 1, a, ai + 1)
        }
    }
}

/// Whether some later `/` of `a` begins a suffix that the pattern
/// after the first of the doubled slashes matches: the `//` descent
/// across one or more whole segments.
pub open spec fn spec_descend(p: Seq<u8>, pi: int, a: Seq<u8>, ai: int) -> bool
    decreases p.len() - pi, a.len() - ai, 0int,
{
    if pi < 0 || pi >= p.len() {
        false
    } else {
        exists|j: int| ai < j < a.len() && #[trigger] a[j] == 47 && spec_matches(p, pi + 1, a, j)
    }
}

/// Whether one alternative of the group `p[start..cb)`, taken as a
/// literal, is the next bytes of `a` and the rest of the pattern after
/// the closing brace matches what follows.
pub open spec fn spec_match_alts(p: Seq<u8>, start: int, cb: int, a: Seq<u8>, ai: int) -> bool
    decreases p.len() - start, a.len() - ai, 0int,
{
    if start < 0 || start > cb || cb >= p.len() || ai < 0 {
        false
    } else {
        let x = find_byte(p, start, cb, 44);
        let e = if x < 0 {
            cb
        } else {
            x
        };
        (lit_prefix(p, start, e, a, ai) && spec_matches(p, cb + 1, a, ai + (e - start))) || (start
            <= e < cb && spec_match_alts(p, e + 1, cb, a, ai))
    }
}

/// A well-formed pattern: it starts with `/`, is non-zero ASCII, and
/// every class and alternation group is closed, with no nested group.
pub open spec fn pattern_ok(p: Seq<u8>) -> bool {
    &&& p.len() >= 1
    &&& p[0] == 47
    &&& valid_str_bytes(p)
    &&& brackets_ok(p, 0)
}

/// Every `[` and `{` from `i` on is closed, with no `{` inside a
/// group.
pub open spec fn brackets_ok(p: Seq<u8>, i: int) -> bool
    decreases p.len() - i,
{
    if i < 0 || i >= p.len() {
        true
    } else if p[i] == 91 {
        let cb = find_byte(p, i + 1, p.len() as int, 93);
        i < cb < p.len() && brackets_ok(p, cb + 1)
    } else if p[i] == 123 {
        let cb = find_byte(p, i + 1, p.len() as int, 125);
        i < cb < p.len() && find_byte(p, i + 1, cb, 123) < 0 && brackets_ok(p, cb + 1)
    } else {
        brackets_ok(p, i + 1)
    }
}

/// A compiled address pattern, reusable against any number of
/// addresses.
#[derive(Debug)]
pub struct Matcher {
    pattern: Vec<u8>,
}

impl View for Matcher {
    type V = Seq<u8>;

    closed spec fn view(&self) -> Seq<u8> {
        self.pattern@
    }
}

/// Finds the first position of `b` in `p[from..end)`.
#[verifier::loop_isolation(false)]
fn find_byte_exec(p: &Vec<u8>, from: usize, end: usize, b: u8) -> (r: Option<usize>)
    requires
        end <= p@.len(),
    ensures
        match r {
            Some(t) => find_byte(p@, from as int, end as int, b) == t as int && from <= t < end,
            None => find_byte(p@, from as int, end as int, b) == -1,
        },
{
    let mut i: usize = from;
    if from >= end {
        return None;
    }
    while i < end
        invariant
            from <= i <= end,
            find_byte(p@, from as int, end as int, b) == find_byte(p@, i as int, end as int, b),
        decreases end - i,
    {
        if p[i] == b {
            return Some(i);
        }
        i += 1;
    }
    None
}

/// Whether every class and group of `p` is closed from `i` on.
#[verifier::loop_isolation(false)]
fn brackets_ok_exec(p: &Vec<u8>, i: usize) -> (r: bool)
    ensures
        r == brackets_ok(p@, i as int),
    decreases p@.len() - i,
{
    if i >= p.len() {
        return true;
    }
    if p[i] == 91 {
        match find_byte_exec(p, i + 1, p.len(), 93) {
            Some(cb) => brackets_ok_exec(p, cb + 1),
            None => false,
        }
    } else if p[i] == 123 {
        match find_byte_exec(p, i + 1, p.len(), 125) {
            Some(cb) => match find_byte_exec(p, i + 1, cb, 123) {
                Some(_) => false,
                None => brackets_ok_exec(p, cb + 1),
            },
            None => false,
        }
    } else {
        brackets_ok_exec(p, i + 1)
    }
}

/// Compiles an OSC address pattern into a reusable matcher.  A pattern
/// that does not start with `/`, is not non-zero ASCII, or has an
/// unclosed or nested class or group is `BadAddressPattern`.
pub fn compile_pattern(pattern: &str) -> (r: Result<Matcher, OscError>)
    ensures
        match r {
            Ok(m) => pattern_ok(str_bytes(pattern@)) && m@ == str_bytes(pattern@),
            Err(e) => !pattern_ok(str_bytes(pattern@)) && e == OscError::BadAddressPattern,
        },
{
    if !crate::encoder::check_osc_str(pattern) {
        return Err(OscError::BadAddressPattern);
    }
    let pb = pattern.as_bytes();
    if pb.len() == 0 || pb[0] != 47 {
        return Err(OscError::BadAddressPattern);
    }
    let mut pv: Vec<u8> = Vec::new();
    let mut i: usize = 0;
    while i < pb.len()
        invariant
            i <= pb@.len(),
            pv@ == pb@.subrange(0, i as int),
        decreases pb@.len() - i,
    {
        pv.push(pb[i]);
        i += 1;
        proof {
            assert(pv@ =~= pb@.subrange(0, i as int));
        }
    }
    proof {
        assert(pv@ =~= pb@);
    }
    if !brackets_ok_exec(&pv, 0) {
        return Err(OscError::BadAddressPattern);
    }
    Ok(Matcher { pattern: pv })
}

/// Whether the literal bytes `p[start..e)` are the next bytes of `a`
/// at `ai`.
#[verifier::loop_isolation(false)]
fn lit_prefix_exec(p: &Vec<u8>, start: usize, e: usize, a: &Vec<u8>, ai: usize) -> (r: bool)
    requires
        start <= e <= p@.len(),
    ensures
        r == lit_prefix(p@, start as int, e as int, a@, ai as int),
{
    if ai > a.len() || e - start > a.len() - ai {
        proof {
            assert(!lit_prefix(p@, start as int, e as int, a@, ai as int));
        }
        return false;
    }
    let mut k: usize = 0;
    while k < e - start
        invariant
            k <= e - start,
            e - start <= a@.len() - ai,
            forall|j: int| 0 <= j < k ==> #[trigger] p@[start + j] == a@[ai + j],
        decreases e - start - k,
    {
        if p[start + k] != a[ai + k] {
            proof {
                assert(p@.subrange(start as int, e as int)[k as int] != a@.subrange(
                    ai as int,
                    ai + (e - start),
                )[k as int]);
            }
            return false;
        }
        k += 1;
    }
    proof {
        assert forall|j: int| 0 <= j < e - start implies p@.subrange(start as int, e as int)[j]
            == a@.subrange(ai as int, ai + (e - start))[j] by {
            assert(p@[start + j] == a@[ai + j]);
        }
        assert(p@.subrange(start as int, e as int) =~= a@.subrange(ai as int, ai + (e - start)));
    }
    true
}

/// Whether `ch` matches the class `p[from..to)`.
#[verifier::loop_isolation(false)]
fn class_matches_exec(p: &Vec<u8>, from: usize, to: usize, ch: u8) -> (r: bool)
    requires
        to <= p@.len(),
    ensures
        r == class_matches(p@, from as int, to as int, ch),
{
    if from < to && p[from] == 33 {
        !class_members_exec(p, from + 1, to, ch)
    } else {
        class_members_exec(p, from, to, ch)
    }
}

/// Whether `ch` is named by the class members `p[from..to)`.
#[verifier::loop_isolation(false)]
fn class_members_exec(p: &Vec<u8>, from: usize, to: usize, ch: u8) -> (r: bool)
    requires
        to <= p@.len(),
    ensures
        r == class_members(p@, from as int, to as int, ch),
    decreases to - from,
{
    if from >= to {
        return false;
    }
    if to - from > 2 && p[from + 1] == 45 {
        if p[from] <= ch && ch <= p[from + 2] {
            true
        } else {
            class_members_exec(p, from + 3, to, ch)
        }
    } else {
        if ch == p[from] {
            true
        } else {
            class_members_exec(p, from + 1, to, ch)
        }
    }
}

/// Whether the pattern from `pi` matches the address from `ai`.
#[verifier::loop_isolation(false)]
#[verifier::rlimit(100)]
#[verifier::spinoff_prover]
fn matches_at(p: &Vec<u8>, pi: usize, a: &Vec<u8>, ai: usize) -> (r: bool)
    requires
        pi <= p@.len(),
        ai <= a@.len(),
    ensures
        r == spec_matches(p@, pi as int, a@, ai as int),
    decreases p@.len() - pi, a@.len() - ai, 1int,
{
    if pi == p.len() {
        return ai == a.len();
    }
    let c = p[pi];
    if c == 42 {
        if matches_at(p, pi + 1, a, ai) {
            proof {
                assert(spec_matches(p@, pi as int, a@, ai as int));
            }
            true
        } else if ai < a.len() && a[ai] != 47 {
            let rr = matches_at(p, pi, a, ai + 1);
            proof {
                assert(rr == spec_matches(p@, pi as int, a@, ai as int));
            }
            rr
        } else {
            proof {
                assert(!spec_matches(p@, pi as int, a@, ai as int));
            }
            false
        }
    } else if c == 63 {
        let rr = ai < a.len() && a[ai] != 47 && matches_at(p, pi + 1, a, ai + 1);
        proof {
            assert(rr == spec_matches(p@, pi as int, a@, ai as int));
        }
        rr
    } else if c == 91 {
        let rr = match find_byte_exec(p, pi + 1, p.len(), 93) {
            Some(cb) => ai < a.len() && a[ai] != 47 && class_matches_exec(p, pi + 1, cb, a[ai])
                && matches_at(p, cb + 1, a, ai + 1),
            None => false,
        };
        proof {
            assert(rr == spec_matches(p@, pi as int, a@, ai as int));
        }
        rr
    } else if c == 123 {
        let rr = match find_byte_exec(p, pi + 1, p.len(), 125) {
            Some(cb) => match_alts_at(p, pi + 1, cb, a, ai),
            None => false,
        };
        proof {
            assert(rr == spec_matches(p@, pi as int, a@, ai as int));
        }
        rr
    } else if c == 47 && pi + 1 < p.len() && p[pi + 1] == 47 {
        if ai < a.len() && a[ai] == 47 {
            match_descend(p, pi, a, ai)
        } else {
            proof {
                assert(!spec_matches(p@, pi as int, a@, ai as int));
            }
            false
        }
    } else {
        let rr = ai < a.len() && a[ai] == c && matches_at(p, pi + 1, a, ai + 1);
        proof {
            assert(rr == spec_matches(p@, pi as int, a@, ai as int));
        }
        rr
    }
}

/// Searches for a later segment boundary of `a` from which the rest of
/// the pattern matches, implementing the `//` descent.
#[verifier::loop_isolation(false)]
#[verifier::rlimit(100)]
fn match_descend(p: &Vec<u8>, pi: usize, a: &Vec<u8>, ai: usize) -> (r: bool)
    requires
        pi + 1 < p@.len(),
        p@[pi as int] == 47,
        p@[pi + 1] == 47,
        ai < a@.len(),
        a@[ai as int] == 47,
    ensures
        r == spec_descend(p@, pi as int, a@, ai as int),
    decreases p@.len() - pi, a@.len() - ai, 0int,
{
    let plen = p.len();
    let alen = a.len();
    let mut j: usize = ai + 1;
    while j < a.len()
        invariant
            ai < j <= a@.len(),
            forall|j2: int|
                ai < j2 < j ==> !(#[trigger] a@[j2] == 47 && spec_matches(p@, pi + 1, a@, j2)),
        decreases a@.len() - j,
    {
        if a[j] == 47 {
            if matches_at(p, pi + 1, a, j) {
                proof {
                    let jj: int = j as int;
                    assert(ai < jj < a@.len());
                    assert(a@[jj] == 47);
                    assert(spec_matches(p@, pi as int + 1, a@, jj));
                    assert(spec_descend(p@, pi as int, a@, ai as int));
                }
                return true;
            }
        }
        j += 1;
    }
    proof {
        assert(!spec_descend(p@, pi as int, a@, ai as int)) by {
            if spec_descend(p@, pi as int, a@, ai as int) {
                let jj = choose|j2: int|
                    ai < j2 < a@.len() && #[trigger] a@[j2] == 47 && spec_matches(
                        p@,
                        pi as int + 1,
                        a@,
                        j2,
                    );
                assert(ai < jj < j);
                assert(!(a@[jj] == 47 && spec_matches(p@, pi + 1, a@, jj)));
            }
        }
    }
    false
}

/// Whether one alternative of the group `p[start..cb)` matches at `ai`
/// and the pattern after the group matches the rest.
#[verifier::loop_isolation(false)]
#[verifier::rlimit(100)]
fn match_alts_at(p: &Vec<u8>, start: usize, cb: usize, a: &Vec<u8>, ai: usize) -> (r: bool)
    requires
        start <= cb < p@.len(),
        ai <= a@.len(),
    ensures
        r == spec_match_alts(p@, start as int, cb as int, a@, ai as int),
    decreases p@.len() - start, a@.len() - ai, 0int,
{
    let plen = p.len();
    proof {
        assert(cb < plen);
    }
    let e = match find_byte_exec(p, start, cb, 44) {
        Some(x) => x,
        None => cb,
    };
    if lit_prefix_exec(p, start, e, a, ai) {
        let alen = a.len();
        proof {
            assert(start <= e);
            assert(e - start <= alen - ai);
        }
        if matches_at(p, cb + 1, a, ai + (e - start)) {
            return true;
        }
    }
    if e < cb {
        match_alts_at(p, e + 1, cb, a, ai)
    } else {
        false
    }
}

impl Matcher {
    /// Whether the compiled pattern matches `address`, byte for byte
    /// over its UTF-8 form.  Matching is pure: the matcher can be
    /// reused against any number of addresses.
    pub fn matches(&self, address: &str) -> (r: bool)
        ensures
            r == spec_matches(self@, 0, address.spec_bytes(), 0),
    {
        let ab = address.as_bytes();
        let mut av: Vec<u8> = Vec::new();
        let mut i: usize = 0;
        while i < ab.len()
            invariant
                i <= ab@.len(),
                av@ == ab@.subrange(0, i as int),
            decreases ab@.len() - i,
        {
            av.push(ab[i]);
            i += 1;
            proof {
                assert(av@ =~= ab@.subrange(0, i as int));
            }
        }
        proof {
            assert(av@ =~= ab@);
        }
        matches_at(&self.pattern, 0, &av, 0)
    }
}

} // verus!
