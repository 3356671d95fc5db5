//! Natural alphanumeric ordering of filenames.
//!
//! Frame filenames are zero-padded inconsistently across uploads, so the
//! manifest orders them by natural comparison: a name is read as a sequence
//! of tokens, where each maximal run of decimal digits forms a number token
//! compared by numeric value and every other character forms a text token
//! compared by code point; token sequences compare lexicographically.
//! Under this order `frame2` precedes `frame10`.

use vstd::prelude::*;

use crate::numfmt::pow10;

verus! {

use vstd::relations::sorted_by;

/// An ASCII decimal digit character.
pub open spec fn is_digit(c: char) -> bool {
    48 <= c as u32 <= 57
}

/// The numeric value of a digit character; other characters count as zero
/// so the definition is total.
pub open spec fn digit_val(c: char) -> nat {
    if is_digit(c) {
        (c as u32 - 48) as nat
    } else {
        0
    }
}

/// The first position at or after `i` holding a character that is not a
/// digit, or the length of `s` when only digits remain.
pub open spec fn run_end(s: Seq<char>, i: int) -> int
    decreases s.len() - i,
    when 0 <= i <= s.len()
{
    if i == s.len() || !is_digit(s[i]) {
        i
    } else {
        run_end(s, i + 1)
    }
}

/// The numeric value of a digit sequence, read from the front.
pub open spec fn digits_value(s: Seq<char>) -> nat
    decreases s.len(),
{
    if s.len() == 0 {
        0
    } else {
        digit_val(s[0]) * pow10((s.len() - 1) as nat) + digits_value(s.drop_first())
    }
}

/// One token of a name: a maximal digit run read as a number, or a single
/// non-digit character carried as its code point.
pub enum NameToken {
    Number(nat),
    Text(u32),
}

/// `run_end` stays between its starting position and the length of `s`,
/// covers digits only, and stops at the first non-digit.
pub proof fn lemma_run_end_facts(s: Seq<char>, i: int)
    requires
        0 <= i <= s.len(),
    ensures
        i <= run_end(s, i) <= s.len(),
        forall|k: int| i <= k < run_end(s, i) ==> is_digit(#[trigger] s[k]),
        run_end(s, i) < s.len() ==> !is_digit(s[run_end(s, i)]),
    decreases s.len() - i,
{
    if i < s.len() && is_digit(s[i]) {
        lemma_run_end_facts(s, i + 1);
    }
}

/// The token reading of a name from position `i` on: maximal digit runs
/// become number tokens, every other character a text token.
pub open spec fn tokens_from(s: Seq<char>, i: int) -> Seq<NameToken>
    decreases s.len() - i,
    when 0 <= i <= s.len() via tokens_from_decreases
{
    if i == s.len() {
        Seq::empty()
    } else if !is_digit(s[i]) {
        seq![NameToken::Text(s[i] as u32)] + tokens_from(s, i + 1)
    } else {
        seq![NameToken::Number(digits_value(s.subrange(i, run_end(s, i))))] + tokens_from(
            s,
            run_end(s, i),
        )
    }
}

#[via_fn]
proof fn tokens_from_decreases(s: Seq<char>, i: int) {
    if i < s.len() && is_digit(s[i]) {
        lemma_run_end_facts(s, i);
    }
}

/// The token reading of a whole name.
pub open spec fn tokens(s: Seq<char>) -> Seq<NameToken> {
    tokens_from(s, 0)
}

/// Unfolds one step of the token reading at a non-digit character.
proof fn lemma_tokens_text_step(s: Seq<char>, i: int)
    requires
        0 <= i < s.len(),
        !is_digit(s[i]),
    ensures
        tokens_from(s, i) == seq![NameToken::Text(s[i] as u32)] + tokens_from(s, i + 1),
{
    reveal_with_fuel(tokens_from, 2);
}

/// Unfolds one step of the token reading at a digit: one number token for
/// the whole run.
proof fn lemma_tokens_digit_step(s: Seq<char>, i: int)
    requires
        0 <= i < s.len(),
        is_digit(s[i]),
    ensures
        tokens_from(s, i) == seq![
            NameToken::Number(digits_value(s.subrange(i, run_end(s, i)))),
        ] + tokens_from(s, run_end(s, i)),
{
    lemma_run_end_facts(s, i);
    reveal_with_fuel(tokens_from, 2);
}

/// Three-way comparison of tokens.  Numbers compare by value and text by
/// code point; a number compares against a text character the way any of
/// its digits would, which is uniform because the digit codes are
/// contiguous: the number is smaller exactly when the character lies above
/// `9`.
pub open spec fn token_cmp(a: NameToken, b: NameToken) -> int {
    match (a, b) {
        (NameToken::Number(x), NameToken::Number(y)) => if x < y {
            -1
        } else if x == y {
            0
        } else {
            1
        },
        (NameToken::Text(c), NameToken::Text(d)) => if c < d {
            -1
        } else if c == d {
            0
        } else {
            1
        },
        (NameToken::Number(_), NameToken::Text(d)) => if 57 < d {
            -1
        } else {
            1
        },
        (NameToken::Text(c), NameToken::Number(_)) => if 57 < c {
            1
        } else {
            -1
        },
    }
}

/// Three-way lexicographic comparison of token sequences.
pub open spec fn lex_cmp(a: Seq<NameToken>, b: Seq<NameToken>) -> int
    decreases a.len() + b.len(),
{
    if a.len() == 0 && b.len() == 0 {
        0
    } else if a.len() == 0 {
        -1
    } else if b.len() == 0 {
        1
    } else {
        let c = token_cmp(a[0], b[0]);
        if c != 0 {
            c
        } else {
            lex_cmp(a.drop_first(), b.drop_first())
        }
    }
}

/// Three-way natural comparison of two names.
pub open spec fn natural_cmp(a: Seq<char>, b: Seq<char>) -> int {
    lex_cmp(tokens(a), tokens(b))
}

/// Natural order on names: `a` sorts no later than `b`.
pub open spec fn natural_le(a: Seq<char>, b: Seq<char>) -> bool {
    natural_cmp(a, b) <= 0
}

/// The natural order as a relation value, the form the sortedness
/// statements use.
pub open spec fn natural_le_strings() -> spec_fn(String, String) -> bool {
    |x: String, y: String| natural_le(x@, y@)
}

proof fn lemma_token_cmp_antisym(a: NameToken, b: NameToken)
    ensures
        token_cmp(a, b) == -token_cmp(b, a),
{
}

proof fn lemma_token_cmp_trans(a: NameToken, b: NameToken, c: NameToken)
    requires
        token_cmp(a, b) <= 0,
        token_cmp(b, c) <= 0,
    ensures
        token_cmp(a, c) <= 0,
        token_cmp(a, b) < 0 || token_cmp(b, c) < 0 ==> token_cmp(a, c) < 0,
{
}

proof fn lemma_lex_cmp_antisym(a: Seq<NameToken>, b: Seq<NameToken>)
    ensures
        lex_cmp(a, b) == -lex_cmp(b, a),
    decreases a.len() + b.len(),
{
    if a.len() > 0 && b.len() > 0 {
        lemma_token_cmp_antisym(a[0], b[0]);
        lemma_lex_cmp_antisym(a.drop_first(), b.drop_first());
    }
}

proof fn lemma_lex_cmp_refl(a: Seq<NameToken>)
    ensures
        lex_cmp(a, a) == 0,
    decreases a.len(),
{
    if a.len() > 0 {
        lemma_lex_cmp_refl(a.drop_first());
    }
}

proof fn lemma_lex_cmp_trans(a: Seq<NameToken>, b: Seq<NameToken>, c: Seq<NameToken>)
    requires
        lex_cmp(a, b) <= 0,
        lex_cmp(b, c) <= 0,
    ensures
        lex_cmp(a, c) <= 0,
    decreases a.len() + b.len() + c.len(),
{
    if a.len() == 0 {
        if c.len() > 0 {
            assert(lex_cmp(a, c) == -1);
        }
    } else if b.len() == 0 || c.len() == 0 {
    } else {
        lemma_token_cmp_trans(a[0], b[0], c[0]);
        if token_cmp(a[0], b[0]) == 0 && token_cmp(b[0], c[0]) == 0 {
            lemma_lex_cmp_trans(a.drop_first(), b.drop_first(), c.drop_first());
        }
    }
}

/// The natural order is total: any two names compare one way or the other.
pub proof fn lemma_natural_le_total(a: Seq<char>, b: Seq<char>)
    ensures
        natural_le(a, b) || natural_le(b, a),
{
    lemma_lex_cmp_antisym(tokens(a), tokens(b));
}

/// The natural order is reflexive.
pub proof fn lemma_natural_le_refl(a: Seq<char>)
    ensures
        natural_le(a, a),
{
    lemma_lex_cmp_refl(tokens(a));
}

/// The natural order is transitive.
pub proof fn lemma_natural_le_trans(a: Seq<char>, b: Seq<char>, c: Seq<char>)
    requires
        natural_le(a, b),
        natural_le(b, c),
    ensures
        natural_le(a, c),
{
    lemma_lex_cmp_trans(tokens(a), tokens(b), tokens(c));
}

/// A digit sequence's value is below `pow10` of its length.
proof fn lemma_value_upper(s: Seq<char>)
    ensures
        digits_value(s) < pow10(s.len() as nat),
    decreases s.len(),
{
    if s.len() == 0 {
    } else {
        let d = digit_val(s[0]);
        let p = pow10((s.len() - 1) as nat);
        lemma_value_upper(s.drop_first());
        assert(digits_value(s.drop_first()) < p);
        assert(d <= 9);
        assert(d * p <= 9 * p) by (nonlinear_arith)
            requires
                d <= 9,
                p >= 0,
        ;
        assert(digits_value(s) < 10 * p);
    }
}

/// A digit sequence that starts with a nonzero digit has a value at least
/// `pow10` of one less than its length.
proof fn lemma_value_lower(s: Seq<char>)
    requires
        s.len() > 0,
        digit_val(s[0]) >= 1,
    ensures
        digits_value(s) >= pow10((s.len() - 1) as nat),
{
    let d = digit_val(s[0]);
    let p = pow10((s.len() - 1) as nat);
    assert(d * p >= 1 * p) by (nonlinear_arith)
        requires
            d >= 1,
            p >= 0,
    ;
}

/// Dropping leading zeros does not change a digit sequence's value.
proof fn lemma_value_strip_zeros(s: Seq<char>, z: int)
    requires
        0 <= z <= s.len(),
        forall|k: int| 0 <= k < z ==> digit_val(#[trigger] s[k]) == 0,
    ensures
        digits_value(s) == digits_value(s.skip(z)),
    decreases z,
{
    if z > 0 {
        assert(digit_val(s[0]) == 0);
        assert(digits_value(s) == digits_value(s.drop_first()));
        assert forall|k: int| 0 <= k < z - 1 implies digit_val(#[trigger] s.drop_first()[k])
            == 0 by {
            assert(s.drop_first()[k] == s[k + 1]);
        }
        lemma_value_strip_zeros(s.drop_first(), z - 1);
        assert(s.drop_first().skip(z - 1) =~= s.skip(z));
    } else {
        assert(s.skip(0) =~= s);
    }
}

/// Two equally long digit sequences whose digits agree up to position `k`
/// and differ there compare by the digit at `k`.
proof fn lemma_value_lex(s: Seq<char>, t: Seq<char>, k: int)
    requires
        s.len() == t.len(),
        0 <= k < s.len(),
        forall|m: int| 0 <= m < k ==> digit_val(#[trigger] s[m]) == digit_val(t[m]),
        digit_val(s[k]) < digit_val(t[k]),
    ensures
        digits_value(s) < digits_value(t),
    decreases k,
{
    let p = pow10((s.len() - 1) as nat);
    if k == 0 {
        let ds = digit_val(s[0]);
        let dt = digit_val(t[0]);
        lemma_value_upper(s.drop_first());
        assert(digits_value(s.drop_first()) < p);
        assert(ds * p + p <= dt * p) by (nonlinear_arith)
            requires
                ds < dt,
                p >= 0,
        ;
    } else {
        assert(digit_val(s[0]) == digit_val(t[0]));
        assert forall|m: int| 0 <= m < k - 1 implies digit_val(#[trigger] s.drop_first()[m])
            == digit_val(t.drop_first()[m]) by {
            assert(s.drop_first()[m] == s[m + 1]);
            assert(t.drop_first()[m] == t[m + 1]);
        }
        assert(s.drop_first()[k - 1] == s[k]);
        assert(t.drop_first()[k - 1] == t[k]);
        lemma_value_lex(s.drop_first(), t.drop_first(), k - 1);
    }
}

/// The end of the digit run of `s` starting at position `i`.
fn scan_run_end(s: &str, i: usize, n: usize) -> (r: usize)
    requires
        n == s@.len(),
        i <= n,
    ensures
        i <= r <= n,
        r == run_end(s@, i as int),
{
    let mut e = i;
    loop
        invariant
            n == s@.len(),
            i <= e <= n,
            run_end(s@, i as int) == run_end(s@, e as int),
        ensures
            i <= e <= n,
            e == run_end(s@, i as int),
        decreases n - e,
    {
        if e == n {
            break ;
        }
        let c = s.get_char(e) as u32;
        if !(48 <= c && c <= 57) {
            break ;
        }
        e = e + 1;
    }
    e
}

/// The first position in `[i, limit)` whose character is not the digit
/// zero, or `limit` when all are.
fn scan_zero_end(s: &str, i: usize, limit: usize) -> (r: usize)
    requires
        limit <= s@.len(),
        i <= limit,
    ensures
        i <= r <= limit,
        forall|k: int| i <= k < r ==> digit_val(#[trigger] s@[k]) == 0,
        r < limit ==> s@[r as int] as u32 != 48,
{
    let mut z = i;
    loop
        invariant
            limit <= s@.len(),
            i <= z <= limit,
            forall|k: int| i <= k < z ==> digit_val(#[trigger] s@[k]) == 0,
        ensures
            i <= z <= limit,
            forall|k: int| i <= k < z ==> digit_val(#[trigger] s@[k]) == 0,
            z < limit ==> s@[z as int] as u32 != 48,
        decreases limit - z,
    {
        if z == limit {
            break ;
        }
        let c = s.get_char(z) as u32;
        if c != 48 {
            break ;
        }
        z = z + 1;
    }
    z
}

/// Digit sequences with the same digit values everywhere have the same
/// numeric value.
proof fn lemma_value_congruent(s: Seq<char>, t: Seq<char>)
    requires
        s.len() == t.len(),
        forall|m: int| 0 <= m < s.len() ==> digit_val(#[trigger] s[m]) == digit_val(t[m]),
    ensures
        digits_value(s) == digits_value(t),
    decreases s.len(),
{
    if s.len() > 0 {
        assert forall|m: int| 0 <= m < s.drop_first().len() implies digit_val(
            #[trigger] s.drop_first()[m],
        ) == digit_val(t.drop_first()[m]) by {
            assert(s.drop_first()[m] == s[m + 1]);
            assert(t.drop_first()[m] == t[m + 1]);
        }
        lemma_value_congruent(s.drop_first(), t.drop_first());
    }
}

/// Three-way natural comparison of two names, negative when `a` sorts
/// first, zero when neither sorts before the other, positive when `b`
/// sorts first.
#[verifier::loop_isolation(false)]
#[verifier::rlimit(60)]
pub fn natural_cmp_str(a: &str, b: &str) -> (r: i32)
    ensures
        r as int == natural_cmp(a@, b@),
{
    let la = a.unicode_len();
    let lb = b.unicode_len();
    let mut i: usize = 0;
    let mut j: usize = 0;
    loop
        invariant
            0 <= i <= la,
            0 <= j <= lb,
            natural_cmp(a@, b@) == lex_cmp(tokens_from(a@, i as int), tokens_from(b@, j as int)),
        decreases la - i + lb - j,
    {
        let ghost ta = tokens_from(a@, i as int);
        let ghost tb = tokens_from(b@, j as int);
        if i == la && j == lb {
            return 0;
        }
        if i == la {
            assert(tb.len() > 0);
            return -1;
        }
        if j == lb {
            assert(ta.len() > 0);
            return 1;
        }
        let cha = a.get_char(i);
        let chb = b.get_char(j);
        let ca = cha as u32;
        let cb = chb as u32;
        let da = 48 <= ca && ca <= 57;
        let db = 48 <= cb && cb <= 57;
        if !da && !db {
            proof {
                lemma_tokens_text_step(a@, i as int);
                lemma_tokens_text_step(b@, j as int);
            }
            if ca == cb {
                proof {
                    assert(token_cmp(ta[0], tb[0]) == 0);
                    assert(ta.drop_first() =~= tokens_from(a@, i + 1));
                    assert(tb.drop_first() =~= tokens_from(b@, j + 1));
                }
                i = i + 1;
                j = j + 1;
            } else if ca < cb {
                assert(token_cmp(ta[0], tb[0]) == -1);
                return -1;
            } else {
                assert(token_cmp(ta[0], tb[0]) == 1);
                return 1;
            }
        } else if da && !db {
            proof {
                lemma_tokens_digit_step(a@, i as int);
                lemma_tokens_text_step(b@, j as int);
            }
            if cb > 57 {
                assert(token_cmp(ta[0], tb[0]) == -1);
                return -1;
            } else {
                assert(token_cmp(ta[0], tb[0]) == 1);
                return 1;
            }
        } else if !da && db {
            proof {
                lemma_tokens_text_step(a@, i as int);
                lemma_tokens_digit_step(b@, j as int);
            }
            if ca > 57 {
                assert(token_cmp(ta[0], tb[0]) == 1);
                return 1;
            } else {
                assert(token_cmp(ta[0], tb[0]) == -1);
                return -1;
            }
        } else {
            let ra = scan_run_end(a, i, la);
            let rb = scan_run_end(b, j, lb);
            proof {
                lemma_run_end_facts(a@, i as int);
                lemma_run_end_facts(b@, j as int);
                assert(run_end(a@, i as int) == run_end(a@, i + 1));
                lemma_run_end_facts(a@, i + 1);
                assert(run_end(b@, j as int) == run_end(b@, j + 1));
                lemma_run_end_facts(b@, j + 1);
            }
            let ghost runa = a@.subrange(i as int, ra as int);
            let ghost runb = b@.subrange(j as int, rb as int);
            let ghost va = digits_value(runa);
            let ghost vb = digits_value(runb);
            proof {
                lemma_tokens_digit_step(a@, i as int);
                lemma_tokens_digit_step(b@, j as int);
                assert(ta == seq![NameToken::Number(va)] + tokens_from(a@, ra as int));
                assert(tb == seq![NameToken::Number(vb)] + tokens_from(b@, rb as int));
            }
            let za = scan_zero_end(a, i, ra);
            let zb = scan_zero_end(b, j, rb);
            let ghost stripa = a@.subrange(za as int, ra as int);
            let ghost stripb = b@.subrange(zb as int, rb as int);
            proof {
                assert forall|k: int| 0 <= k < za - i implies digit_val(#[trigger] runa[k])
                    == 0 by {
                    assert(runa[k] == a@[i + k]);
                }
                lemma_value_strip_zeros(runa, za - i);
                assert(runa.skip(za - i) =~= stripa);
                assert forall|k: int| 0 <= k < zb - j implies digit_val(#[trigger] runb[k])
                    == 0 by {
                    assert(runb[k] == b@[j + k]);
                }
                lemma_value_strip_zeros(runb, zb - j);
                assert(runb.skip(zb - j) =~= stripb);
                assert(va == digits_value(stripa));
                assert(vb == digits_value(stripb));
            }
            let lena = ra - za;
            let lenb = rb - zb;
            if lena < lenb {
                proof {
                    lemma_value_upper(stripa);
                    assert(digit_val(stripb[0]) >= 1);
                    lemma_value_lower(stripb);
                    crate::numfmt::lemma_pow10_increases(lena as nat, (lenb - 1) as nat);
                    assert(va < vb);
                    assert(token_cmp(ta[0], tb[0]) == -1);
                }
                return -1;
            } else if lenb < lena {
                proof {
                    lemma_value_upper(stripb);
                    assert(digit_val(stripa[0]) >= 1);
                    lemma_value_lower(stripa);
                    crate::numfmt::lemma_pow10_increases(lenb as nat, (lena - 1) as nat);
                    assert(vb < va);
                    assert(token_cmp(ta[0], tb[0]) == 1);
                }
                return 1;
            } else {
                let mut t: usize = 0;
                while t < lena
                    invariant
                        0 <= t <= lena,
                        forall|u: int|
                            0 <= u < t ==> digit_val(#[trigger] stripa[u]) == digit_val(stripb[u]),
                    decreases lena - t,
                {
                    let xa = a.get_char(za + t) as u32;
                    let xb = b.get_char(zb + t) as u32;
                    proof {
                        assert(stripa[t as int] == a@[za + t]);
                        assert(stripb[t as int] == b@[zb + t]);
                        assert(is_digit(a@[za + t]));
                        assert(is_digit(b@[zb + t]));
                    }
                    if xa < xb {
                        proof {
                            lemma_value_lex(stripa, stripb, t as int);
                            assert(token_cmp(ta[0], tb[0]) == -1);
                        }
                        return -1;
                    }
                    if xb < xa {
                        proof {
                            lemma_value_lex(stripb, stripa, t as int);
                            assert(token_cmp(ta[0], tb[0]) == 1);
                        }
                        return 1;
                    }
                    t = t + 1;
                }
                proof {
                    lemma_value_congruent(stripa, stripb);
                    assert(token_cmp(ta[0], tb[0]) == 0);
                    assert(ta.drop_first() =~= tokens_from(a@, ra as int));
                    assert(tb.drop_first() =~= tokens_from(b@, rb as int));
                }
                i = ra;
                j = rb;
            }
        }
    }
}

/// Whether `a` sorts no later than `b` in natural order.
pub fn natural_le_str(a: &str, b: &str) -> (r: bool)
    ensures
        r == natural_le(a@, b@),
{
    natural_cmp_str(a, b) <= 0
}

/// Sorts names into natural order: the result holds exactly the input
/// names, arranged so that no later name sorts naturally before an earlier
/// one.
#[verifier::loop_isolation(false)]
pub fn sort_strings_natural(names: Vec<String>) -> (r: Vec<String>)
    ensures
        sorted_by(r@, natural_le_strings()),
        r@.to_multiset() == names@.to_multiset(),
{
    broadcast use vstd::seq_lib::group_to_multiset_ensures;

    let mut input = names;
    let ghost orig = input@;
    let mut out: Vec<String> = Vec::new();
    while input.len() > 0
        invariant
            out@.to_multiset().add(input@.to_multiset()) =~= orig.to_multiset(),
            sorted_by(out@, natural_le_strings()),
            forall|x: int, y: int|
                0 <= x < out@.len() && 0 <= y < input@.len() ==> natural_le(
                    (#[trigger] out@[x])@,
                    (#[trigger] input@[y])@,
                ),
        decreases input.len(),
    {
        let mut m: usize = 0;
        let mut t: usize = 1;
        proof {
            lemma_natural_le_refl(input@[0]@);
        }
        while t < input.len()
            invariant
                0 <= m < t,
                t <= input@.len(),
                forall|k: int| 0 <= k < t ==> natural_le(input@[m as int]@, (#[trigger] input@[k])@),
            decreases input@.len() - t,
        {
            if !natural_le_str(input[m].as_str(), input[t].as_str()) {
                proof {
                    lemma_natural_le_total(input@[m as int]@, input@[t as int]@);
                    assert forall|k: int| 0 <= k < t + 1 implies natural_le(
                        input@[t as int]@,
                        (#[trigger] input@[k])@,
                    ) by {
                        if k < t {
                            lemma_natural_le_trans(
                                input@[t as int]@,
                                input@[m as int]@,
                                input@[k]@,
                            );
                        } else {
                            lemma_natural_le_refl(input@[t as int]@);
                        }
                    }
                }
                m = t;
            }
            t = t + 1;
        }
        let ghost input_before = input@;
        let ghost out_before = out@;
        let x = input.remove(m);
        out.push(x);
        proof {
            assert(out@ == out_before.push(input_before[m as int]));
            assert forall|p: int, q: int| 0 <= p < q < out@.len() implies natural_le_strings()(
                #[trigger] out@[p],
                #[trigger] out@[q],
            ) by {
                assert(out@[p] == out_before[p]);
                if q == out@.len() - 1 {
                    assert(out@[q] == input_before[m as int]);
                    assert(natural_le(out_before[p]@, input_before[m as int]@));
                } else {
                    assert(out@[q] == out_before[q]);
                    assert(natural_le_strings()(out_before[p], out_before[q]));
                }
            }
            assert(sorted_by(out@, natural_le_strings()));
            assert(out@.to_multiset().add(input@.to_multiset()) =~= orig.to_multiset()) by {
                assert(out@.to_multiset() =~= out_before.to_multiset().insert(
                    input_before[m as int],
                ));
                assert(input@.to_multiset() =~= input_before.to_multiset().remove(
                    input_before[m as int],
                ));
                assert(input_before.to_multiset().count(input_before[m as int]) > 0);
            }
            assert forall|x0: int, y0: int|
                0 <= x0 < out@.len() && 0 <= y0 < input@.len() implies natural_le(
                (#[trigger] out@[x0])@,
                (#[trigger] input@[y0])@,
            ) by {
                if y0 < m {
                    assert(input@[y0] == input_before[y0]);
                } else {
                    assert(input@[y0] == input_before[y0 + 1]);
                }
                if x0 == out@.len() - 1 {
                    assert(out@[x0] == input_before[m as int]);
                } else {
                    assert(out@[x0] == out_before[x0]);
                }
            }
        }
    }
    proof {
        assert(out@.to_multiset().add(input@.to_multiset()) =~= out@.to_multiset());
        assert(out@.to_multiset() =~= orig.to_multiset());
    }
    out
}

} // verus!
