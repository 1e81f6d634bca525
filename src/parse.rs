use crate::range::VersionRange;
use crate::text::chars_of;
use crate::version::Version;
use vstd::prelude::*;

verus! {

pub open spec fn is_digit(c: char) -> bool {
    '0' <= c && c <= '9'
}

pub open spec fn digit_value(c: char) -> int {
    c as int - '0' as int
}

pub open spec fn digit_char(d: int) -> char {
    if d == 0 { '0' } else if d == 1 { '1' } else if d == 2 { '2' } else if d == 3 { '3' }
    else if d == 4 { '4' } else if d == 5 { '5' } else if d == 6 { '6' } else if d == 7 { '7' }
    else if d == 8 { '8' } else { '9' }
}

/// The decimal numeral of `n`, without leading zeros.
#[verifier::opaque]
pub open spec fn dec(n: nat) -> Seq<char>
    decreases n,
{
    if n < 10 {
        seq![digit_char(n as int)]
    } else {
        dec(n / 10).push(digit_char((n % 10) as int))
    }
}

/// The value of a string of digits.
pub open spec fn digits_value(s: Seq<char>) -> int
    decreases s.len(),
{
    if s.len() == 0 {
        0
    } else {
        digits_value(s.drop_last()) * 10 + digit_value(s.last())
    }
}

pub open spec fn all_digits(s: Seq<char>) -> bool {
    forall|k: int| 0 <= k < s.len() ==> is_digit(#[trigger] s[k])
}

/// A numeral as versions write it: digits, and no leading zero.
pub open spec fn is_numeral(s: Seq<char>) -> bool {
    s.len() > 0 && all_digits(s) && (s.len() == 1 || s[0] != '0')
}

proof fn lemma_digit_char(d: int)
    requires
        0 <= d < 10,
    ensures
        is_digit(digit_char(d)),
        digit_value(digit_char(d)) == d,
        d > 0 ==> digit_char(d) != '0',
{
}

proof fn lemma_dec(n: nat)
    ensures
        is_numeral(dec(n)),
        digits_value(dec(n)) == n,
    decreases n,
{
    reveal(dec);
    if n < 10 {
        lemma_digit_char(n as int);
        assert(dec(n).drop_last() =~= Seq::<char>::empty());
        assert(digits_value(dec(n).drop_last()) == 0);
    } else {
        lemma_dec(n / 10);
        lemma_digit_char((n % 10) as int);
        let s = dec(n);
        let t = dec(n / 10);
        assert(s.drop_last() =~= t);
        assert(n == (n / 10) * 10 + n % 10) by (nonlinear_arith);
        if t.len() == 1 {
            assert(t.drop_last() =~= Seq::<char>::empty());
            assert(digits_value(t.drop_last()) == 0);
        }
        assert(digits_value(s) == digits_value(t) * 10 + digit_value(s.last()));
        assert forall|k: int| 0 <= k < s.len() implies is_digit(#[trigger] s[k]) by {
            if k < s.len() - 1 {
                assert(s[k] == dec(n / 10)[k]);
            }
        }
        assert(s[0] == dec(n / 10)[0]);
    }
}

proof fn lemma_value_positive(s: Seq<char>)
    requires
        s.len() > 0,
        all_digits(s),
        s[0] != '0',
    ensures
        digits_value(s) >= 1,
    decreases s.len(),
{
    if s.len() > 1 {
        let t = s.drop_last();
        assert(t[0] == s[0]);
        assert forall|k: int| 0 <= k < t.len() implies is_digit(#[trigger] t[k]) by {
            assert(t[k] == s[k]);
        }
        lemma_value_positive(t);
        assert(is_digit(s.last()));
    } else {
        assert(is_digit(s[0]));
        assert(s.drop_last() =~= Seq::<char>::empty());
        assert(digits_value(s.drop_last()) == 0);
    }
}

proof fn lemma_value_nonneg(s: Seq<char>)
    requires
        all_digits(s),
    ensures
        digits_value(s) >= 0,
    decreases s.len(),
{
    if s.len() > 0 {
        let t = s.drop_last();
        assert forall|k: int| 0 <= k < t.len() implies is_digit(#[trigger] t[k]) by {
            assert(t[k] == s[k]);
        }
        lemma_value_nonneg(t);
        assert(is_digit(s.last()));
    }
}

/// A numeral is the decimal form of its value.
proof fn lemma_numeral_is_dec(s: Seq<char>)
    requires
        is_numeral(s),
    ensures
        digits_value(s) >= 0,
        dec(digits_value(s) as nat) == s,
    decreases s.len(),
{
    reveal(dec);
    lemma_value_nonneg(s);
    let n = digits_value(s);
    if s.len() == 1 {
        assert(is_digit(s[0]));
        assert(s.drop_last() =~= Seq::<char>::empty());
        assert(digits_value(s.drop_last()) == 0);
        let d = digit_value(s[0]);
        assert(n == d);
        assert(dec(n as nat) =~= s);
    } else {
        let t = s.drop_last();
        assert(t[0] == s[0]);
        assert forall|k: int| 0 <= k < t.len() implies is_digit(#[trigger] t[k]) by {
            assert(t[k] == s[k]);
        }
        lemma_value_positive(t);
        lemma_numeral_is_dec(t);
        let m = digits_value(t);
        let d = digit_value(s.last());
        assert(is_digit(s.last()));
        assert(n == m * 10 + d);
        assert(n / 10 == m && n % 10 == d) by (nonlinear_arith)
            requires
                n == m * 10 + d,
                0 <= d < 10,
        ;
        assert(n >= 10);
        assert(digit_char(d) == s.last());
        assert(dec(n as nat) =~= s);
    }
}

/// At position `i` of `s` stands the numeral of `n`, and no digit follows it.
pub open spec fn numeral_at(s: Seq<char>, i: int, n: nat) -> bool {
    let e = i + dec(n).len();
    &&& 0 <= i
    &&& e <= s.len()
    &&& s.subrange(i, e) == dec(n)
    &&& (e == s.len() || !is_digit(s[e]))
}

proof fn lemma_value_grows(s: Seq<char>, c: char)
    requires
        all_digits(s),
        is_digit(c),
    ensures
        digits_value(s.push(c)) == digits_value(s) * 10 + digit_value(c),
        digits_value(s.push(c)) >= digits_value(s),
{
    lemma_value_nonneg(s);
    assert(s.push(c).drop_last() =~= s);
}

/// Reads the numeral at `i`: the maximal run of digits there, which must
/// have no leading zero and fit in a `u64`.
fn scan_number(cs: &Vec<char>, i: usize) -> (r: Option<(u64, usize)>)
    requires
        i <= cs@.len(),
    ensures
        r matches Some((n, j)) ==> numeral_at(cs@, i as int, n as nat) && j == i + dec(
            n as nat,
        ).len(),
        r matches Some((n, j)) ==> forall|m: u64|
            #![trigger dec(m as nat)]
            numeral_at(cs@, i as int, m as nat) ==> m == n,
        r is None ==> forall|m: u64|
            #![trigger dec(m as nat)]
            !numeral_at(cs@, i as int, m as nat),
{
    let mut j: usize = i;
    let mut acc: u64 = 0;
    let mut overflow = false;
    assert(cs@.subrange(i as int, i as int) =~= Seq::<char>::empty());
    while j < cs.len() && cs[j] >= '0' && cs[j] <= '9'
        invariant
            i <= j <= cs@.len(),
            all_digits(cs@.subrange(i as int, j as int)),
            !overflow ==> acc == digits_value(cs@.subrange(i as int, j as int)),
            overflow ==> digits_value(cs@.subrange(i as int, j as int)) > u64::MAX,
        decreases cs@.len() - j,
    {
        let c = cs[j];
        let ghost run = cs@.subrange(i as int, j as int);
        proof {
            lemma_value_grows(run, c);
            assert(cs@.subrange(i as int, j + 1) =~= run.push(c));
        }
        let d = (c as u32 - '0' as u32) as u64;
        if !overflow {
            match acc.checked_mul(10) {
                Some(m) => match m.checked_add(d) {
                    Some(x) => {
                        acc = x;
                    },
                    None => {
                        overflow = true;
                    },
                },
                None => {
                    overflow = true;
                },
            }
        }
        j = j + 1;
    }
    let ghost run = cs@.subrange(i as int, j as int);
    // Any numeral at `i` is exactly this run of digits.
    proof {
        assert forall|m: u64| #![trigger dec(m as nat)] numeral_at(cs@, i as int, m as nat) implies
            i + dec(m as nat).len() == j && run == dec(m as nat) by {
            lemma_dec(m as nat);
            let e = i + dec(m as nat).len();
            if e < j {
                assert(run[e - i] == cs@[e]);
            } else if e > j {
                assert(dec(m as nat)[j - i] == cs@[j as int]);
            }
        }
    }
    if j == i {
        proof {
            assert forall|m: u64| #![trigger dec(m as nat)] !numeral_at(cs@, i as int, m as nat) by {
                lemma_dec(m as nat);
            }
        }
        return None;
    }
    if j - i > 1 && cs[i] == '0' {
        proof {
            assert forall|m: u64| #![trigger dec(m as nat)] !numeral_at(cs@, i as int, m as nat) by {
                lemma_dec(m as nat);
                if numeral_at(cs@, i as int, m as nat) {
                    assert(dec(m as nat)[0] == cs@[i as int]);
                }
            }
        }
        return None;
    }
    if overflow {
        proof {
            assert forall|m: u64| #![trigger dec(m as nat)] !numeral_at(cs@, i as int, m as nat) by {
                lemma_dec(m as nat);
            }
        }
        return None;
    }
    proof {
        assert(run[0] == cs@[i as int]);
        lemma_numeral_is_dec(run);
        assert forall|m: u64| #![trigger dec(m as nat)] numeral_at(cs@, i as int, m as nat) implies m
            == acc by {
            lemma_dec(m as nat);
        }
    }
    Some((acc, j))
}

/// Pre-release identifiers, each written as a numeral, joined by dots.
#[verifier::opaque]
pub open spec fn pre_text(p: Seq<u64>) -> Seq<char>
    decreases p.len(),
{
    if p.len() == 0 {
        seq![]
    } else if p.len() == 1 {
        dec(p[0] as nat)
    } else {
        dec(p[0] as nat) + seq!['.'] + pre_text(p.drop_first())
    }
}

/// Each identifier written as a numeral and followed by a dot.
#[verifier::opaque]
pub open spec fn dotted(p: Seq<u64>) -> Seq<char>
    decreases p.len(),
{
    if p.len() == 0 {
        seq![]
    } else {
        dec(p[0] as nat) + seq!['.'] + dotted(p.drop_first())
    }
}

/// The text of a version: `1.2.3`, or `1.2.3-4.5` with a pre-release tag.
pub open spec fn version_text(v: Version) -> Seq<char> {
    let core = dec(v.major as nat) + seq!['.'] + dec(v.minor as nat) + seq!['.'] + dec(
        v.patch as nat,
    );
    if v.pre@.len() == 0 {
        core
    } else {
        core + seq!['-'] + pre_text(v.pre@)
    }
}

proof fn lemma_pre_text_push(q: Seq<u64>, p: u64)
    ensures
        pre_text(q.push(p)) == dotted(q) + dec(p as nat),
    decreases q.len(),
{
    reveal(pre_text);
    reveal(dotted);
    if q.len() == 0 {
        assert(q.push(p) =~= seq![p]);
        assert(dotted(q) + dec(p as nat) =~= dec(p as nat));
    } else {
        lemma_pre_text_push(q.drop_first(), p);
        assert(q.push(p).drop_first() =~= q.drop_first().push(p));
        assert(pre_text(q.push(p)) =~= dotted(q) + dec(p as nat));
    }
}

/// `s` holds from `i` on the numeral of `n`, then `rest`, where `rest`
/// does not start with a digit.
proof fn lemma_numeral_then(s: Seq<char>, i: int, n: nat, rest: Seq<char>)
    requires
        0 <= i <= s.len(),
        s.subrange(i, s.len() as int) == dec(n) + rest,
        rest.len() == 0 || !is_digit(rest[0]),
    ensures
        numeral_at(s, i, n),
        s.subrange(i + dec(n).len(), s.len() as int) == rest,
{
    let t = s.subrange(i, s.len() as int);
    let d = dec(n);
    let e = i + d.len();
    assert(t.len() == d.len() + rest.len());
    assert forall|k: int| 0 <= k < d.len() implies #[trigger] s.subrange(i, e)[k] == d[k] by {
        assert(t[k] == (d + rest)[k]);
    }
    assert(s.subrange(i, e) =~= d);
    assert forall|k: int| 0 <= k < rest.len() implies #[trigger] s.subrange(e, s.len() as int)[k]
        == rest[k] by {
        assert(t[d.len() + k] == (d + rest)[d.len() + k]);
    }
    assert(s.subrange(e, s.len() as int) =~= rest);
    if e < s.len() {
        assert(s[e] == t[d.len() as int]);
        assert(t[d.len() as int] == (d + rest)[d.len() as int]);
    }
}

pub open spec fn core_text(major: u64, minor: u64, patch: u64) -> Seq<char> {
    dec(major as nat) + seq!['.'] + dec(minor as nat) + seq!['.'] + dec(patch as nat)
}

pub open spec fn pre_tail(p: Seq<u64>) -> Seq<char> {
    if p.len() == 0 {
        seq![]
    } else {
        seq!['-'] + pre_text(p)
    }
}

proof fn lemma_dotted_push(q: Seq<u64>, p: u64)
    ensures
        dotted(q.push(p)) == dotted(q) + dec(p as nat) + seq!['.'],
    decreases q.len(),
{
    reveal(dotted);
    if q.len() == 0 {
        let qp = q.push(p);
        assert(qp.drop_first() =~= Seq::<u64>::empty());
        assert(dotted(qp.drop_first()) == Seq::<char>::empty());
        assert(qp[0] == p);
        assert(dotted(q) == Seq::<char>::empty());
        assert(dotted(qp) =~= dotted(q) + dec(p as nat) + seq!['.']);
    } else {
        let qp = q.push(p);
        lemma_dotted_push(q.drop_first(), p);
        assert(qp.drop_first() =~= q.drop_first().push(p));
        assert(qp[0] == q[0]);
        assert(dotted(qp) == dec(q[0] as nat) + seq!['.'] + dotted(qp.drop_first()));
        assert(dotted(q) == dec(q[0] as nat) + seq!['.'] + dotted(q.drop_first()));
        assert(dotted(qp) =~= dotted(q) + dec(p as nat) + seq!['.']);
    }
}

/// Reads a whole version from `cs[start..]`.
#[verifier::rlimit(100)]
fn parse_version_from(cs: &Vec<char>, start: usize) -> (r: Option<Version>)
    requires
        start <= cs@.len(),
    ensures
        r matches Some(v) ==> version_text(v) == cs@.subrange(start as int, cs@.len() as int),
        r is None ==> forall|v: Version|
            #![trigger version_text(v)]
            version_text(v) != cs@.subrange(start as int, cs@.len() as int),
{
    let ghost t = cs@.subrange(start as int, cs@.len() as int);
    let ghost len = cs@.len() as int;
    proof {
        assert forall|v: Version| #![trigger version_text(v)] version_text(v) =~= dec(v.major as nat) + (
        seq!['.'] + (dec(v.minor as nat) + (seq!['.'] + (dec(v.patch as nat) + pre_tail(v.pre@))))) by {}
    }
    // the major number
    let (major, j1) = match scan_number(cs, start) {
        Some(x) => x,
        None => {
            proof {
                assert forall|v: Version| #![trigger version_text(v)] version_text(v) != t by {
                    if version_text(v) == t {
                        lemma_numeral_then(cs@, start as int, v.major as nat, seq!['.'] + (dec(v.minor as nat) + (seq!['.'] + (dec(v.patch as nat) + pre_tail(v.pre@)))));
                    }
                }
            }
            return None;
        },
    };
    proof {
        assert forall|v: Version| #![trigger version_text(v)] version_text(v) == t implies v.major == major
            && cs@.subrange(j1 as int, len) == seq!['.'] + (dec(v.minor as nat) + (seq!['.'] + (dec(v.patch as nat) + pre_tail(v.pre@)))) by {
            lemma_numeral_then(cs@, start as int, v.major as nat, seq!['.'] + (dec(v.minor as nat) + (seq!['.'] + (dec(v.patch as nat) + pre_tail(v.pre@)))));
        }
    }
    if j1 >= cs.len() || cs[j1] != '.' {
        proof {
            assert forall|v: Version| #![trigger version_text(v)] version_text(v) != t by {
                if version_text(v) == t {
                    assert(cs@.subrange(j1 as int, len)[0] == cs@[j1 as int]);
                }
            }
        }
        return None;
    }
    proof {
        assert forall|v: Version| #![trigger version_text(v)] version_text(v) == t implies
            cs@.subrange(j1 + 1, len) == dec(v.minor as nat) + (seq!['.'] + (dec(v.patch as nat) + pre_tail(v.pre@))) by {
            assert(cs@.subrange(j1 + 1, len) =~= cs@.subrange(j1 as int, len).drop_first());
        }
    }
    // the minor number
    let (minor, j2) = match scan_number(cs, j1 + 1) {
        Some(x) => x,
        None => {
            proof {
                assert forall|v: Version| #![trigger version_text(v)] version_text(v) != t by {
                    if version_text(v) == t {
                        lemma_numeral_then(cs@, j1 + 1, v.minor as nat, seq!['.'] + (dec(v.patch as nat) + pre_tail(v.pre@)));
                    }
                }
            }
            return None;
        },
    };
    proof {
        assert forall|v: Version| #![trigger version_text(v)] version_text(v) == t implies v.minor == minor
            && cs@.subrange(j2 as int, len) == seq!['.'] + (dec(v.patch as nat) + pre_tail(v.pre@)) by {
            lemma_numeral_then(cs@, j1 + 1, v.minor as nat, seq!['.'] + (dec(v.patch as nat) + pre_tail(v.pre@)));
        }
    }
    if j2 >= cs.len() || cs[j2] != '.' {
        proof {
            assert forall|v: Version| #![trigger version_text(v)] version_text(v) != t by {
                if version_text(v) == t {
                    assert(cs@.subrange(j2 as int, len)[0] == cs@[j2 as int]);
                }
            }
        }
        return None;
    }
    proof {
        assert forall|v: Version| #![trigger version_text(v)] version_text(v) == t implies
            cs@.subrange(j2 + 1, len) == dec(v.patch as nat) + pre_tail(v.pre@) by {
            assert(cs@.subrange(j2 + 1, len) =~= cs@.subrange(j2 as int, len).drop_first());
        }
    }
    // the patch number
    let (patch, j3) = match scan_number(cs, j2 + 1) {
        Some(x) => x,
        None => {
            proof {
                assert forall|v: Version| #![trigger version_text(v)] version_text(v) != t by {
                    if version_text(v) == t {
                        lemma_numeral_then(cs@, j2 + 1, v.patch as nat, pre_tail(v.pre@));
                    }
                }
            }
            return None;
        },
    };
    proof {
        assert forall|v: Version| #![trigger version_text(v)] version_text(v) == t implies v.patch == patch
            && cs@.subrange(j3 as int, len) == pre_tail(v.pre@) by {
            lemma_numeral_then(cs@, j2 + 1, v.patch as nat, pre_tail(v.pre@));
        }
        assert(cs@.subrange(start as int, j3 as int) =~= core_text(major, minor, patch));
    }
    if j3 == cs.len() {
        let v = Version { major, minor, patch, pre: Vec::new() };
        proof {
            assert(t =~= cs@.subrange(start as int, j3 as int));
        }
        return Some(v);
    }
    if cs[j3] != '-' {
        proof {
            assert forall|v: Version| #![trigger version_text(v)] version_text(v) != t by {
                if version_text(v) == t {
                    assert(cs@.subrange(j3 as int, len)[0] == cs@[j3 as int]);
                }
            }
        }
        return None;
    }
    match parse_pre_from(cs, j3 + 1) {
        None => {
            proof {
                assert forall|v: Version| #![trigger version_text(v)] version_text(v) != t by {
                    if version_text(v) == t {
                        assert(cs@.subrange(j3 as int, len) == pre_tail(v.pre@));
                        if v.pre@.len() == 0 {
                            assert(cs@.subrange(j3 as int, len).len() == 0);
                        }
                        assert(cs@.subrange(j3 + 1, len) =~= cs@.subrange(j3 as int, len).drop_first());
                        assert((seq!['-'] + pre_text(v.pre@)).drop_first() =~= pre_text(v.pre@));
                    }
                }
            }
            None
        },
        Some(pre) => {
            let v = Version { major, minor, patch, pre };
            proof {
                assert(cs@.subrange(start as int, len) =~= cs@.subrange(start as int, j3 as int)
                    + seq!['-'] + cs@.subrange(j3 + 1, len));
                assert(t =~= version_text(v));
            }
            Some(v)
        },
    }
}

/// A tag that stands from `pos` on starts with the numeral of its first
/// identifier, then ends or goes on after a dot with the rest of the tag.
proof fn lemma_pre_step(s: Seq<char>, pos: int, rem: Seq<u64>)
    requires
        0 <= pos <= s.len(),
        rem.len() > 0,
        s.subrange(pos, s.len() as int) == pre_text(rem),
    ensures
        numeral_at(s, pos, rem[0] as nat),
        rem.len() == 1 ==> pos + dec(rem[0] as nat).len() == s.len(),
        rem.len() > 1 ==> {
            let k = pos + dec(rem[0] as nat).len();
            &&& k < s.len()
            &&& s[k] == '.'
            &&& s.subrange(k + 1, s.len() as int) == pre_text(rem.drop_first())
        },
{
    reveal(pre_text);
    if rem.len() == 1 {
        assert(pre_text(rem) =~= dec(rem[0] as nat) + Seq::<char>::empty());
        lemma_numeral_then(s, pos, rem[0] as nat, Seq::<char>::empty());
    } else {
        let rest = seq!['.'] + pre_text(rem.drop_first());
        assert(pre_text(rem) =~= dec(rem[0] as nat) + rest);
        lemma_numeral_then(s, pos, rem[0] as nat, rest);
        let k = pos + dec(rem[0] as nat).len();
        assert(s.subrange(k, s.len() as int)[0] == s[k]);
        assert(s.subrange(k + 1, s.len() as int) =~= s.subrange(k, s.len() as int).drop_first());
    }
}

/// Reads a whole pre-release tag from `cs[pos..]`.
#[verifier::rlimit(100)]
fn parse_pre_from(cs: &Vec<char>, pos: usize) -> (r: Option<Vec<u64>>)
    requires
        0 < pos <= cs@.len(),
    ensures
        r matches Some(p) ==> p@.len() > 0 && pre_text(p@) == cs@.subrange(pos as int, cs@.len() as int),
        r is None ==> forall|q: Seq<u64>|
            #![trigger pre_text(q)]
            q.len() > 0 ==> pre_text(q) != cs@.subrange(pos as int, cs@.len() as int),
{
    let ghost len = cs@.len() as int;
    let ghost start = pos as int;
    let ghost t = cs@.subrange(start, len);
    let mut pre: Vec<u64> = Vec::new();
    let mut at: usize = pos;
    proof {
        assert forall|q: Seq<u64>| #![trigger pre_text(q)] q.len() > 0 && pre_text(q) == t implies
            cs@.subrange(at as int, len) == pre_text(q.skip(0)) by {
            assert(q.skip(0) =~= q);
        }
        reveal(dotted);
        assert(cs@.subrange(start, at as int) =~= dotted(pre@));
    }
    loop
        invariant
            len == cs@.len(),
            0 <= start <= at <= len,
            start == pos as int,
            t == cs@.subrange(start, len),
            cs@.subrange(start, at as int) == dotted(pre@),
            forall|q: Seq<u64>| #![trigger pre_text(q)] q.len() > 0 && pre_text(q) == t ==> {
                &&& pre@.len() < q.len()
                &&& pre@ == q.take(pre@.len() as int)
                &&& cs@.subrange(at as int, len) == pre_text(q.skip(pre@.len() as int))
            },
        decreases len - at,
    {
        let ghost old_pre = pre@;
        let (p, k) = match scan_number(cs, at) {
            Some(x) => x,
            None => {
                proof {
                    assert forall|q: Seq<u64>| #![trigger pre_text(q)] q.len() > 0 implies pre_text(q) != t by {
                        if pre_text(q) == t {
                            lemma_pre_step(cs@, at as int, q.skip(old_pre.len() as int));
                        }
                    }
                }
                return None;
            },
        };
        pre.push(p);
        proof {
            lemma_dotted_push(old_pre, p);
            assert(cs@.subrange(start, k as int) =~= cs@.subrange(start, at as int)
                + cs@.subrange(at as int, k as int));
        }
        if k == cs.len() {
            proof {
                lemma_pre_text_push(old_pre, p);
                assert(t =~= pre_text(pre@));
            }
            return Some(pre);
        }
        if cs[k] != '.' {
            proof {
                assert forall|q: Seq<u64>| #![trigger pre_text(q)] q.len() > 0 implies pre_text(q) != t by {
                    if pre_text(q) == t {
                        lemma_pre_step(cs@, at as int, q.skip(old_pre.len() as int));
                    }
                }
            }
            return None;
        }
        proof {
            assert forall|q: Seq<u64>| #![trigger pre_text(q)] q.len() > 0 && pre_text(q) == t implies {
                &&& pre@.len() < q.len()
                &&& pre@ == q.take(pre@.len() as int)
                &&& cs@.subrange(k + 1, len) == pre_text(q.skip(pre@.len() as int))
            } by {
                let rem = q.skip(old_pre.len() as int);
                lemma_pre_step(cs@, at as int, rem);
                assert(rem.drop_first() =~= q.skip(pre@.len() as int));
                assert(pre@ =~= q.take(pre@.len() as int));
            }
            assert(cs@.subrange(start, k + 1) =~= cs@.subrange(start, k as int) + seq!['.']);
        }
        at = k + 1;
    }
}

/// A range expression that names no range.
#[derive(PartialEq, Eq, Structural, Clone, Copy, Debug)]
pub enum VersionRangeError {
    Malformed,
}

/// The text of a range: `*`, `1.2.3`, `>=1.2.3`, `~1.2.3` or `^1.2.3`.
pub open spec fn range_text(r: VersionRange) -> Seq<char> {
    match r {
        VersionRange::Any => seq!['*'],
        VersionRange::Exact(v) => version_text(v),
        VersionRange::AtLeast(v) => seq!['>', '='] + version_text(v),
        VersionRange::Tilde(v) => seq!['~'] + version_text(v),
        VersionRange::Caret(v) => seq!['^'] + version_text(v),
    }
}

proof fn lemma_version_text_starts_with_digit(v: Version)
    ensures
        version_text(v).len() > 0,
        is_digit(version_text(v)[0]),
{
    lemma_dec(v.major as nat);
    assert(version_text(v)[0] == dec(v.major as nat)[0]);
}

/// Reads a concrete version such as `1.2.3` or `1.0.0-2.1`: numerals
/// without leading zeros, each fitting in a `u64`. `None` where the text is
/// the text of no version.
pub fn parse_version(text: &str) -> (r: Option<Version>)
    ensures
        r matches Some(v) ==> version_text(v) == text@,
        r is None ==> forall|v: Version| #![trigger version_text(v)] version_text(v) != text@,
{
    let cs = chars_of(text);
    assert(cs@.subrange(0, cs@.len() as int) =~= cs@);
    parse_version_from(&cs, 0)
}

/// Reads a range expression: `*`, an exact version, or a version after
/// `>=`, `~` or `^`. An expression that is the text of no range is an error.
pub fn parse_range(text: &str) -> (r: Result<VersionRange, VersionRangeError>)
    ensures
        r matches Ok(range) ==> range_text(range) == text@,
        r is Err ==> forall|range: VersionRange|
            #![trigger range_text(range)]
            range_text(range) != text@,
{
    let cs = chars_of(text);
    let ghost s = cs@;
    let n = cs.len();
    proof {
        assert forall|range: VersionRange| #![trigger range_text(range)] range_text(range) == s
            && range is Exact implies s.len() > 0 && is_digit(s[0]) by {
            lemma_version_text_starts_with_digit(range->Exact_0);
        }
        assert forall|range: VersionRange| #![trigger range_text(range)] range_text(range) == s
            && !(range is Exact) && !(range is Any) implies s.len() > 1 by {
            match range {
                VersionRange::AtLeast(v) => lemma_version_text_starts_with_digit(v),
                VersionRange::Tilde(v) => lemma_version_text_starts_with_digit(v),
                VersionRange::Caret(v) => lemma_version_text_starts_with_digit(v),
                _ => {},
            }
        }
    }
    if n == 0 {
        return Err(VersionRangeError::Malformed);
    }
    let first = cs[0];
    if first == '*' {
        if n == 1 {
            assert(s =~= seq!['*']);
            return Ok(VersionRange::Any);
        }
        return Err(VersionRangeError::Malformed);
    }
    let (skip, kind): (usize, u8) = if first == '^' {
        (1, 0)
    } else if first == '~' {
        (1, 1)
    } else if first == '>' && n > 1 && cs[1] == '=' {
        (2, 2)
    } else {
        (0, 3)
    };
    match parse_version_from(&cs, skip) {
        None => {
            proof {
                assert forall|range: VersionRange| #![trigger range_text(range)] range_text(range) != s by {
                    if range_text(range) == s {
                        match range {
                            VersionRange::Exact(v) => {
                                assert(s.subrange(0, s.len() as int) =~= s);
                            },
                            VersionRange::AtLeast(v) => {
                                assert(s.subrange(2, s.len() as int) =~= version_text(v));
                            },
                            VersionRange::Tilde(v) => {
                                assert(s.subrange(1, s.len() as int) =~= version_text(v));
                            },
                            VersionRange::Caret(v) => {
                                assert(s.subrange(1, s.len() as int) =~= version_text(v));
                            },
                            _ => {},
                        }
                    }
                }
            }
            Err(VersionRangeError::Malformed)
        },
        Some(v) => {
            if kind == 0 {
                assert(s =~= seq!['^'] + s.subrange(1, s.len() as int));
                Ok(VersionRange::Caret(v))
            } else if kind == 1 {
                assert(s =~= seq!['~'] + s.subrange(1, s.len() as int));
                Ok(VersionRange::Tilde(v))
            } else if kind == 2 {
                assert(s =~= seq!['>', '='] + s.subrange(2, s.len() as int));
                Ok(VersionRange::AtLeast(v))
            } else {
                assert(s =~= s.subrange(0, s.len() as int));
                Ok(VersionRange::Exact(v))
            }
        },
    }
}

} // verus!
