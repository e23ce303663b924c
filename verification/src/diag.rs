//! The diagnostic failed-range sidecar format: a JSON array of two-element
//! arrays, `[[s,e],[s,e]]`.  Rendering and parsing are both here, with the
//! round trip proved, so the reprocessing loop does not depend on how any
//! other tool writes the file.

use vstd::prelude::*;
use vstd::string::*;

use crate::strutil::push_dec;
use crate::strutil::spec_dec;
use crate::strutil::spec_digit_char;

verus! {

/// The digit value of a character, or `-1` when it is not a digit.
pub open spec fn spec_digit_val(c: char) -> int {
    if c == '0' {
        0
    } else if c == '1' {
        1
    } else if c == '2' {
        2
    } else if c == '3' {
        3
    } else if c == '4' {
        4
    } else if c == '5' {
        5
    } else if c == '6' {
        6
    } else if c == '7' {
        7
    } else if c == '8' {
        8
    } else if c == '9' {
        9
    } else {
        -1
    }
}

pub open spec fn spec_is_digit(c: char) -> bool {
    spec_digit_val(c) >= 0
}

/// One rendered pair: `[s,e]`.
pub open spec fn spec_render_pair(a: int, b: int) -> Seq<char> {
    seq!['['] + spec_dec(a) + seq![','] + spec_dec(b) + seq![']']
}

/// The rendered tail of the range list from index `i` on, with a comma
/// before every pair but the first.
pub open spec fn spec_render_items(rs: Seq<(usize, usize)>, i: int) -> Seq<char>
    decreases rs.len() - i,
{
    if i < 0 || i >= rs.len() {
        Seq::empty()
    } else {
        (if i > 0 {
            seq![',']
        } else {
            Seq::empty()
        }) + spec_render_pair(rs[i].0 as int, rs[i].1 as int) + spec_render_items(rs, i + 1)
    }
}

/// The whole rendered sidecar: `[[s,e],...]`.
pub open spec fn spec_render_ranges(rs: Seq<(usize, usize)>) -> Seq<char> {
    seq!['['] + spec_render_items(rs, 0) + seq![']']
}

fn digit_val(c: char) -> (r: i32)
    ensures
        r as int == spec_digit_val(c),
{
    if c == '0' {
        0
    } else if c == '1' {
        1
    } else if c == '2' {
        2
    } else if c == '3' {
        3
    } else if c == '4' {
        4
    } else if c == '5' {
        5
    } else if c == '6' {
        6
    } else if c == '7' {
        7
    } else if c == '8' {
        8
    } else if c == '9' {
        9
    } else {
        -1
    }
}

/// Render the failed-range list as its sidecar JSON text.
pub fn render_ranges(rs: &Vec<(usize, usize)>) -> (r: String)
    ensures
        r@ == spec_render_ranges(rs@),
{
    let mut out = String::new();
    out.push('[');
    let mut i: usize = 0;
    while i < rs.len()
        invariant
            0 <= i <= rs@.len(),
            out@ + spec_render_items(rs@, i as int) =~= seq!['['] + spec_render_items(rs@, 0),
        decreases rs@.len() - i,
    {
        let ghost out0 = out@;
        if i > 0 {
            out.push(',');
        }
        out.push('[');
        push_dec(&mut out, rs[i].0);
        out.push(',');
        push_dec(&mut out, rs[i].1);
        out.push(']');
        proof {
            assert(out@ =~= out0 + (if i > 0 {
                seq![',']
            } else {
                Seq::<char>::empty()
            }) + spec_render_pair(rs@[i as int].0 as int, rs@[i as int].1 as int));
            assert(spec_render_items(rs@, i as int) =~= (if i > 0 {
                seq![',']
            } else {
                Seq::<char>::empty()
            }) + spec_render_pair(rs@[i as int].0 as int, rs@[i as int].1 as int)
                + spec_render_items(rs@, i + 1));
            assert(out@ + spec_render_items(rs@, i + 1) =~= seq!['['] + spec_render_items(rs@, 0));
        }
        i += 1;
    }
    out.push(']');
    proof {
        assert(spec_render_items(rs@, rs@.len() as int) =~= Seq::<char>::empty());
        assert(out@ =~= spec_render_ranges(rs@));
    }
    out
}

/// Greedy digit scan from position `i`, folding digits into `acc`; stops
/// at the first non-digit (or the end) and reports where it stopped.
pub open spec fn spec_scan_digits(s: Seq<char>, i: int, acc: int) -> (int, int)
    decreases s.len() - i,
{
    if i < 0 || i >= s.len() || !spec_is_digit(s[i]) {
        (acc, i)
    } else {
        spec_scan_digits(s, i + 1, acc * 10 + spec_digit_val(s[i]))
    }
}

/// A number starts with a digit; its value is the greedy digit run.
pub open spec fn spec_parse_num(s: Seq<char>, i: int) -> Option<(int, int)> {
    if 0 <= i < s.len() && spec_is_digit(s[i]) {
        Some(spec_scan_digits(s, i, 0))
    } else {
        None
    }
}

/// One `[s,e]` pair.
pub open spec fn spec_parse_pair(s: Seq<char>, i: int) -> Option<((int, int), int)> {
    if !(0 <= i < s.len() && s[i] == '[') {
        None
    } else {
        match spec_parse_num(s, i + 1) {
            None => None,
            Some((a, j)) => {
                if !(j < s.len() && s[j] == ',') {
                    None
                } else {
                    match spec_parse_num(s, j + 1) {
                        None => None,
                        Some((b, k)) => {
                            if !(k < s.len() && s[k] == ']') {
                                None
                            } else {
                                Some(((a, b), k + 1))
                            }
                        },
                    }
                }
            },
        }
    }
}

/// A comma-separated run of pairs.  (A parsed pair always moves the
/// position forward; the guard makes that plain to the definition.)
pub open spec fn spec_parse_items(s: Seq<char>, i: int) -> Option<(Seq<(int, int)>, int)>
    decreases s.len() - i,
{
    match spec_parse_pair(s, i) {
        None => None,
        Some((p, j)) => {
            if j <= i || j > s.len() {
                None
            } else if j < s.len() && s[j] == ',' {
                match spec_parse_items(s, j + 1) {
                    None => None,
                    Some((rest, k)) => Some((seq![p] + rest, k)),
                }
            } else {
                Some((seq![p], j))
            }
        },
    }
}

/// The whole sidecar text: `[]`, or `[` pairs `]` with nothing after.
pub open spec fn spec_parse_ranges(s: Seq<char>) -> Option<Seq<(int, int)>> {
    if s.len() >= 2 && s[0] == '[' && s[s.len() - 1] == ']' {
        if s.len() == 2 {
            Some(Seq::empty())
        } else {
            match spec_parse_items(s, 1) {
                None => None,
                Some((ps, j)) => {
                    if j == s.len() - 1 {
                        Some(ps)
                    } else {
                        None
                    }
                },
            }
        }
    } else {
        None
    }
}

pub open spec fn spec_pow10(k: nat) -> int
    decreases k,
{
    if k == 0 {
        1
    } else {
        10 * spec_pow10((k - 1) as nat)
    }
}

/// The range list as the parser's integer pairs, from index `k` on.
pub open spec fn spec_pairs_of(rs: Seq<(usize, usize)>, k: int) -> Seq<(int, int)> {
    Seq::new((rs.len() - k) as nat, |j: int| (rs[k + j].0 as int, rs[k + j].1 as int))
}

proof fn lemma_digit_char_val(d: int)
    requires
        0 <= d <= 9,
    ensures
        spec_digit_val(spec_digit_char(d)) == d,
        spec_is_digit(spec_digit_char(d)),
{
}

proof fn lemma_dec_digits(n: int)
    ensures
        spec_dec(n).len() >= 1,
        forall|j: int| 0 <= j < spec_dec(n).len() ==> spec_is_digit(#[trigger] spec_dec(n)[j]),
    decreases n,
{
    if n <= 9 {
        lemma_digit_char_val(if n < 0 {
            0
        } else {
            n
        });
    } else {
        lemma_dec_digits(n / 10);
        lemma_digit_char_val(n % 10);
        assert forall|j: int| 0 <= j < spec_dec(n).len() implies spec_is_digit(
            #[trigger] spec_dec(n)[j],
        ) by {
            if j < spec_dec(n / 10).len() {
                assert(spec_dec(n)[j] == spec_dec(n / 10)[j]);
            } else {
                assert(spec_dec(n)[j] == spec_digit_char(n % 10));
            }
        }
    }
}

proof fn lemma_scan_over_dec(s: Seq<char>, i: int, j: int, m: int, acc: int)
    requires
        0 <= i <= j <= s.len(),
        m >= 0,
        acc >= 0,
        s.subrange(i, j) == spec_dec(m),
    ensures
        spec_scan_digits(s, i, acc) == spec_scan_digits(
            s,
            j,
            acc * spec_pow10((j - i) as nat) + m,
        ),
    decreases m,
{
    lemma_dec_digits(m);
    if m <= 9 {
        assert(spec_dec(m).len() == 1);
        assert(j == i + 1);
        assert(s[i] == spec_dec(m)[0]);
        lemma_digit_char_val(m);
        assert(spec_digit_val(s[i]) == m);
        assert(spec_scan_digits(s, i, acc) == spec_scan_digits(s, i + 1, acc * 10 + m));
        assert(spec_pow10(0) == 1);
        assert(spec_pow10(1) == 10);
    } else {
        let la = spec_dec(m / 10).len() as int;
        assert(spec_dec(m) == spec_dec(m / 10).push(spec_digit_char(m % 10)));
        assert(s.subrange(i, j - 1) =~= spec_dec(m / 10)) by {
            assert forall|q: int| 0 <= q < j - 1 - i implies #[trigger] s.subrange(i, j - 1)[q]
                == spec_dec(m / 10)[q] by {
                assert(s.subrange(i, j)[q] == spec_dec(m)[q]);
            }
            assert(spec_dec(m).len() == la + 1);
        }
        lemma_scan_over_dec(s, i, j - 1, m / 10, acc);
        let p1 = spec_pow10((j - 1 - i) as nat);
        let a1 = acc * p1 + m / 10;
        assert(s[j - 1] == spec_dec(m)[j - 1 - i]);
        assert(spec_dec(m)[la] == spec_digit_char(m % 10));
        assert(j - 1 - i == la);
        lemma_digit_char_val(m % 10);
        assert(spec_digit_val(s[j - 1]) == m % 10);
        assert(p1 >= 1) by {
            lemma_pow10_pos((j - 1 - i) as nat);
        }
        assert(a1 >= 0) by (nonlinear_arith)
            requires
                acc >= 0,
                p1 >= 1,
                m >= 0,
                a1 == acc * p1 + m / 10,
        ;
        assert(spec_scan_digits(s, j - 1, a1) == spec_scan_digits(s, j, a1 * 10 + m % 10));
        assert(spec_pow10((j - i) as nat) == 10 * spec_pow10((j - 1 - i) as nat));
        vstd::arithmetic::div_mod::lemma_fundamental_div_mod(m, 10);
        assert(a1 * 10 + m % 10 == acc * spec_pow10((j - i) as nat) + m) by (nonlinear_arith)
            requires
                a1 == acc * p1 + m / 10,
                spec_pow10((j - i) as nat) == 10 * p1,
                m == 10 * (m / 10) + m % 10,
        ;
    }
}

proof fn lemma_pow10_pos(k: nat)
    ensures
        spec_pow10(k) >= 1,
    decreases k,
{
    if k > 0 {
        lemma_pow10_pos((k - 1) as nat);
    }
}

proof fn lemma_parse_num_of_dec(s: Seq<char>, i: int, j: int, m: int)
    requires
        0 <= i <= j <= s.len(),
        m >= 0,
        s.subrange(i, j) == spec_dec(m),
        j < s.len() ==> !spec_is_digit(s[j]),
    ensures
        spec_parse_num(s, i) == Some((m, j)),
{
    lemma_dec_digits(m);
    assert(s[i] == spec_dec(m)[0]);
    assert(spec_is_digit(s[i]));
    lemma_scan_over_dec(s, i, j, m, 0);
    assert(0 * spec_pow10((j - i) as nat) + m == m) by (nonlinear_arith);
    assert(spec_scan_digits(s, j, m) == (m, j));
}

/// Scanning can only grow the accumulator, and never moves backward.
proof fn lemma_scan_monotonic(s: Seq<char>, j: int, acc: int)
    requires
        acc >= 0,
    ensures
        spec_scan_digits(s, j, acc).0 >= acc,
        spec_scan_digits(s, j, acc).1 >= j,
    decreases s.len() - j,
{
    if 0 <= j < s.len() && spec_is_digit(s[j]) {
        let d = spec_digit_val(s[j]);
        assert(acc * 10 + d >= acc) by (nonlinear_arith)
            requires
                acc >= 0,
                d >= 0,
        ;
        lemma_scan_monotonic(s, j + 1, acc * 10 + d);
    }
}

/// Parse one number at `i`; fails where the grammar does, and also when
/// the value does not fit the machine word.
fn parse_num_at(s: &str, n: usize, i: usize) -> (r: Option<(usize, usize)>)
    requires
        n == s@.len(),
    ensures
        r is Some <==> (spec_parse_num(s@, i as int) matches Some(vj) && vj.0 <= usize::MAX),
        r matches Some(v) ==> spec_parse_num(s@, i as int) == Some((v.0 as int, v.1 as int)),
{
    if i >= n {
        return None;
    }
    let d0 = digit_val(s.get_char(i));
    if d0 < 0 {
        return None;
    }
    let ghost full = spec_scan_digits(s@, i as int, 0);
    let mut acc: usize = 0;
    let ghost mut acc_g: int = 0;
    let mut j: usize = i;
    let mut stop: bool = false;
    let mut over: bool = false;
    while !stop
        invariant
            n == s@.len(),
            i <= j <= n,
            full == spec_scan_digits(s@, i as int, 0),
            !over ==> acc as int == acc_g,
            !over ==> full == spec_scan_digits(s@, j as int, acc_g),
            acc_g >= 0,
            over ==> stop,
            over ==> full.0 > usize::MAX,
            stop && !over ==> (j >= n || !spec_is_digit(s@[j as int])),
        decreases n - j + (if stop {
            0int
        } else {
            1int
        }),
    {
        if j >= n {
            stop = true;
        } else {
            let c = s.get_char(j);
            let d = digit_val(c);
            if d < 0 {
                stop = true;
            } else {
                let ghost dv = spec_digit_val(s@[j as int]);
                let ghost acc2 = acc_g * 10 + dv;
                proof {
                    assert(d as int == dv);
                    assert(spec_is_digit(s@[j as int]));
                    assert(spec_scan_digits(s@, j as int, acc_g) == spec_scan_digits(
                        s@,
                        j + 1,
                        acc2,
                    ));
                    assert(full == spec_scan_digits(s@, j + 1, acc2));
                    lemma_scan_monotonic(s@, j + 1, acc2);
                    assert(full.0 >= acc2);
                }
                match acc.checked_mul(10) {
                    None => {
                        proof {
                            assert(acc * 10 > usize::MAX);
                            assert(acc2 > usize::MAX);
                        }
                        over = true;
                        stop = true;
                    },
                    Some(a10) => {
                        match a10.checked_add(d as usize) {
                            None => {
                                proof {
                                    assert(a10 + (d as usize) > usize::MAX);
                                    assert(acc2 > usize::MAX);
                                }
                                over = true;
                                stop = true;
                            },
                            Some(v) => {
                                acc = v;
                                proof {
                                    acc_g = acc2;
                                }
                                j += 1;
                            },
                        }
                    },
                }
            }
        }
    }
    if over {
        None
    } else {
        proof {
            assert(spec_scan_digits(s@, j as int, acc_g) == (acc_g, j as int));
        }
        Some((acc, j))
    }
}

/// Parse one `[s,e]` pair at `i`; fails where the grammar does, and also
/// when a value does not fit the machine word.
fn parse_pair_at(s: &str, n: usize, i: usize) -> (r: Option<((usize, usize), usize)>)
    requires
        n == s@.len(),
    ensures
        r is Some <==> (spec_parse_pair(s@, i as int) matches Some(pj) && pj.0.0 <= usize::MAX
            && pj.0.1 <= usize::MAX),
        r matches Some(v) ==> spec_parse_pair(s@, i as int) == Some(
            ((v.0.0 as int, v.0.1 as int), v.1 as int),
        ),
{
    if i >= n {
        return None;
    }
    if s.get_char(i) != '[' {
        return None;
    }
    let na = parse_num_at(s, n, i + 1);
    match na {
        None => None,
        Some((a, j)) => {
            if j >= n {
                return None;
            }
            if s.get_char(j) != ',' {
                return None;
            }
            let nb = parse_num_at(s, n, j + 1);
            match nb {
                None => None,
                Some((b, k)) => {
                    if k >= n {
                        return None;
                    }
                    if s.get_char(k) != ']' {
                        return None;
                    }
                    Some(((a, b), k + 1))
                },
            }
        },
    }
}

/// All parsed values fit the machine word.
pub open spec fn spec_all_fit(ps: Seq<(int, int)>) -> bool {
    forall|q: int|
        0 <= q < ps.len() ==> 0 <= (#[trigger] ps[q]).0 <= usize::MAX && 0 <= ps[q].1 <= usize::MAX
}

/// The position a successful pair parse reaches lies past its start and
/// inside the text.
proof fn lemma_parse_pair_advances(s: Seq<char>, i: int)
    requires
        spec_parse_pair(s, i) is Some,
    ensures
        ({
            let j = spec_parse_pair(s, i)->Some_0.1;
            i < j <= s.len()
        }),
{
    let (a, ja) = spec_parse_num(s, i + 1)->Some_0;
    lemma_scan_monotonic(s, i + 1, 0);
    let (b, kb) = spec_parse_num(s, ja + 1)->Some_0;
    lemma_scan_monotonic(s, ja + 1, 0);
}

/// Parse the diagnostic sidecar text back into a range list: succeeds
/// exactly when the text matches the sidecar grammar and every value fits
/// the machine word, and then returns exactly the parsed pairs.
#[verifier::rlimit(100)]
pub fn parse_ranges(s: &str) -> (r: Option<Vec<(usize, usize)>>)
    ensures
        r is Some <==> (spec_parse_ranges(s@) matches Some(ps) && spec_all_fit(ps)),
        r matches Some(v) ==> spec_parse_ranges(s@) == Some(spec_pairs_of(v@, 0)),
{
    let n = s.unicode_len();
    if n < 2 {
        return None;
    }
    if s.get_char(0) != '[' {
        return None;
    }
    if s.get_char(n - 1) != ']' {
        return None;
    }
    if n == 2 {
        let v: Vec<(usize, usize)> = Vec::new();
        proof {
            assert(spec_pairs_of(v@, 0) =~= Seq::<(int, int)>::empty());
        }
        return Some(v);
    }
    let mut out: Vec<(usize, usize)> = Vec::new();
    let mut pos: usize = 1;
    proof {
        match spec_parse_items(s@, 1int) {
            Some(rj) => {
                assert(spec_pairs_of(out@, 0) + rj.0 =~= rj.0);
            },
            None => {},
        }
    }
    while pos < n
        invariant
            n == s@.len(),
            1 <= pos <= n,
            n > 2,
            s@[0] == '[',
            s@[n - 1] == ']',
            spec_parse_items(s@, pos as int) is None ==> spec_parse_items(s@, 1int) is None,
            (spec_parse_items(s@, pos as int) matches Some(rj) ==> spec_parse_items(s@, 1int)
                == Some((spec_pairs_of(out@, 0) + rj.0, rj.1))),
            forall|q: int|
                0 <= q < spec_pairs_of(out@, 0).len() ==> 0 <= (#[trigger] spec_pairs_of(
                    out@,
                    0,
                )[q]).0 <= usize::MAX && 0 <= spec_pairs_of(out@, 0)[q].1 <= usize::MAX,
        decreases n - pos,
    {
        let ghost pos0 = pos as int;
        let ghost done0 = spec_pairs_of(out@, 0);
        match parse_pair_at(s, n, pos) {
            None => {
                proof {
                    match spec_parse_pair(s@, pos0) {
                        None => {
                            assert(spec_parse_items(s@, pos0) is None);
                        },
                        Some(pj) => {
                            assert(!(pj.0.0 <= usize::MAX && pj.0.1 <= usize::MAX));
                            match spec_parse_items(s@, pos0) {
                                None => {},
                                Some(rj) => {
                                    assert(rj.0[0] == pj.0);
                                    let ps = done0 + rj.0;
                                    assert(ps[done0.len() as int] == pj.0);
                                    assert(!spec_all_fit(ps));
                                },
                            }
                        },
                    }
                }
                return None;
            },
            Some((pair, j)) => {
                proof {
                    lemma_parse_pair_advances(s@, pos0);
                }
                out.push(pair);
                proof {
                    assert(spec_pairs_of(out@, 0) =~= done0.push((pair.0 as int, pair.1 as int)));
                }
                let mut more: bool = false;
                if j < n {
                    if s.get_char(j) == ',' {
                        more = true;
                    }
                }
                if more {
                    proof {
                        let ghost p_int = (pair.0 as int, pair.1 as int);
                        match spec_parse_items(s@, j + 1) {
                            Some(rj) => {
                                assert(spec_parse_items(s@, pos0) == Some(
                                    (seq![p_int] + rj.0, rj.1),
                                ));
                                assert(spec_pairs_of(out@, 0) + rj.0 =~= done0 + (seq![p_int]
                                    + rj.0));
                            },
                            None => {
                                assert(spec_parse_items(s@, pos0) is None);
                            },
                        }
                    }
                    pos = j + 1;
                } else {
                    proof {
                        let ghost p_int = (pair.0 as int, pair.1 as int);
                        assert(spec_parse_items(s@, pos0) == Some((seq![p_int], j as int)));
                        assert(spec_pairs_of(out@, 0) =~= done0 + seq![p_int]);
                        assert(spec_parse_items(s@, 1int) == Some(
                            (spec_pairs_of(out@, 0), j as int),
                        ));
                    }
                    if j == n - 1 {
                        proof {
                            assert(spec_parse_ranges(s@) == Some(spec_pairs_of(out@, 0)));
                        }
                        return Some(out);
                    } else {
                        proof {
                            assert(spec_parse_ranges(s@) is None);
                        }
                        return None;
                    }
                }
            },
        }
    }
    proof {
        assert(spec_parse_pair(s@, pos as int) is None);
        assert(spec_parse_items(s@, pos as int) is None);
        assert(spec_parse_ranges(s@) is None);
    }
    None
}

proof fn lemma_parse_pair_of_render(s: Seq<char>, i: int, a: int, b: int)
    requires
        0 <= i,
        a >= 0,
        b >= 0,
        i + spec_render_pair(a, b).len() <= s.len(),
        s.subrange(i, i + spec_render_pair(a, b).len()) == spec_render_pair(a, b),
    ensures
        spec_parse_pair(s, i) == Some(((a, b), i + spec_render_pair(a, b).len())),
{
    lemma_dec_digits(a);
    lemma_dec_digits(b);
    let la = spec_dec(a).len() as int;
    let lb = spec_dec(b).len() as int;
    let pr = spec_render_pair(a, b);
    let ll = pr.len() as int;
    assert(ll == 3 + la + lb);
    assert(s[i] == pr[0]);
    assert(pr[0] == '[');
    assert(s.subrange(i + 1, i + 1 + la) =~= spec_dec(a)) by {
        assert forall|q: int| 0 <= q < la implies #[trigger] s.subrange(i + 1, i + 1 + la)[q]
            == spec_dec(a)[q] by {
            assert(s.subrange(i, i + ll)[1 + q] == pr[1 + q]);
            assert(pr[1 + q] == spec_dec(a)[q]);
        }
    }
    let j = i + 1 + la;
    assert(s[j] == pr[1 + la]);
    assert(pr[1 + la] == ',');
    assert(!spec_is_digit(','));
    lemma_parse_num_of_dec(s, i + 1, j, a);
    assert(s.subrange(j + 1, j + 1 + lb) =~= spec_dec(b)) by {
        assert forall|q: int| 0 <= q < lb implies #[trigger] s.subrange(j + 1, j + 1 + lb)[q]
            == spec_dec(b)[q] by {
            assert(s.subrange(i, i + ll)[2 + la + q] == pr[2 + la + q]);
            assert(pr[2 + la + q] == spec_dec(b)[q]);
        }
    }
    let k = j + 1 + lb;
    assert(s[k] == pr[2 + la + lb]);
    assert(pr[2 + la + lb] == ']');
    assert(!spec_is_digit(']'));
    lemma_parse_num_of_dec(s, j + 1, k, b);
}

proof fn lemma_parse_items_of_render(s: Seq<char>, rs: Seq<(usize, usize)>, k: int, pos: int)
    requires
        0 <= k < rs.len(),
        0 <= pos,
        s.len() >= 1,
        s[s.len() - 1] == ']',
        pos + spec_render_pair(rs[k].0 as int, rs[k].1 as int).len() + spec_render_items(
            rs,
            k + 1,
        ).len() == s.len() - 1,
        s.subrange(pos, s.len() - 1) == spec_render_pair(rs[k].0 as int, rs[k].1 as int)
            + spec_render_items(rs, k + 1),
    ensures
        spec_parse_items(s, pos) == Some((spec_pairs_of(rs, k), s.len() - 1)),
    decreases rs.len() - k,
{
    let a = rs[k].0 as int;
    let b = rs[k].1 as int;
    lemma_dec_digits(a);
    lemma_dec_digits(b);
    let pr = spec_render_pair(a, b);
    let ll = pr.len() as int;
    let tail = spec_render_items(rs, k + 1);
    assert(s.subrange(pos, pos + ll) =~= pr) by {
        assert forall|q: int| 0 <= q < ll implies #[trigger] s.subrange(pos, pos + ll)[q]
            == pr[q] by {
            assert(s.subrange(pos, s.len() - 1)[q] == (pr + tail)[q]);
        }
    }
    lemma_parse_pair_of_render(s, pos, a, b);
    let q0 = pos + ll;
    assert(ll >= 5);
    if k == rs.len() - 1 {
        assert(tail =~= Seq::<char>::empty());
        assert(q0 == s.len() - 1);
        assert(s[q0] == ']');
        assert(spec_pairs_of(rs, k) =~= seq![(a, b)]);
    } else {
        assert(tail == seq![','] + spec_render_pair(rs[k + 1].0 as int, rs[k + 1].1 as int)
            + spec_render_items(rs, k + 2));
        assert(s[q0] == s.subrange(pos, s.len() - 1)[ll]);
        assert((pr + tail)[ll] == tail[0]);
        assert(tail[0] == ',');
        assert(s.subrange(q0 + 1, s.len() - 1) =~= spec_render_pair(
            rs[k + 1].0 as int,
            rs[k + 1].1 as int,
        ) + spec_render_items(rs, k + 2)) by {
            assert forall|q: int| 0 <= q < s.len() - 1 - (q0 + 1) implies #[trigger] s.subrange(
                q0 + 1,
                s.len() - 1,
            )[q] == (spec_render_pair(rs[k + 1].0 as int, rs[k + 1].1 as int)
                + spec_render_items(rs, k + 2))[q] by {
                assert(s.subrange(pos, s.len() - 1)[ll + 1 + q] == (pr + tail)[ll + 1 + q]);
                assert((pr + tail)[ll + 1 + q] == tail[1 + q]);
            }
        }
        lemma_parse_items_of_render(s, rs, k + 1, q0 + 1);
        assert(spec_pairs_of(rs, k) =~= seq![(a, b)] + spec_pairs_of(rs, k + 1));
    }
}

/// The round trip of the diagnostic sidecar: parsing a rendered range list
/// yields exactly the list back.
pub proof fn lemma_render_parse_round_trip(rs: Seq<(usize, usize)>)
    ensures
        spec_parse_ranges(spec_render_ranges(rs)) == Some(spec_pairs_of(rs, 0)),
{
    let s = spec_render_ranges(rs);
    let items = spec_render_items(rs, 0);
    assert(s[0] == '[');
    assert(s[s.len() - 1] == ']') by {
        assert(s.len() == 2 + items.len());
        assert(s[s.len() - 1] == (seq!['['] + items + seq![']'])[1 + items.len() as int]);
    }
    if rs.len() == 0 {
        assert(items =~= Seq::<char>::empty());
        assert(s.len() == 2);
        assert(spec_pairs_of(rs, 0) =~= Seq::<(int, int)>::empty());
    } else {
        let a = rs[0].0 as int;
        let b = rs[0].1 as int;
        lemma_dec_digits(a);
        lemma_dec_digits(b);
        assert(items == spec_render_pair(a, b) + spec_render_items(rs, 1));
        assert(s.len() > 2);
        assert(s.subrange(1, s.len() - 1) =~= items) by {
            assert forall|q: int| 0 <= q < items.len() implies #[trigger] s.subrange(
                1,
                s.len() - 1,
            )[q] == items[q] by {
                assert(s[1 + q] == (seq!['['] + items + seq![']'])[1 + q]);
            }
        }
        lemma_parse_items_of_render(s, rs, 0, 1);
    }
}

} // verus!
