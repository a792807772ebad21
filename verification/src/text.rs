//! Text primitives: Unicode white space, trimming, line splitting, literal
//! replacement and decimal numerals, each over the characters of a string.
use vstd::prelude::*;
use vstd::string::*;

verus! {

/// `String::push`: appends one character at the end.
pub assume_specification[ String::push ](s: &mut String, c: char)
    ensures
        final(s)@ == old(s)@.push(c),
;

/// The characters with Unicode's `White_Space` property.
pub open spec fn is_space(c: char) -> bool {
    ||| '\u{9}' <= c <= '\u{d}'
    ||| c == '\u{20}'
    ||| c == '\u{85}'
    ||| c == '\u{a0}'
    ||| c == '\u{1680}'
    ||| '\u{2000}' <= c <= '\u{200a}'
    ||| c == '\u{2028}'
    ||| c == '\u{2029}'
    ||| c == '\u{202f}'
    ||| c == '\u{205f}'
    ||| c == '\u{3000}'
}

/// Whether `c` is white space.
pub fn is_whitespace(c: char) -> (r: bool)
    ensures
        r == is_space(c),
{
    ('\u{9}' <= c && c <= '\u{d}') || c == '\u{20}' || c == '\u{85}' || c == '\u{a0}' || c
        == '\u{1680}' || ('\u{2000}' <= c && c <= '\u{200a}') || c == '\u{2028}' || c == '\u{2029}'
        || c == '\u{202f}' || c == '\u{205f}' || c == '\u{3000}'
}

/// `s` without its leading white space.
pub open spec fn trimmed_start(s: Seq<char>) -> Seq<char>
    decreases s.len(),
{
    if s.len() > 0 && is_space(s[0]) {
        trimmed_start(s.skip(1))
    } else {
        s
    }
}

/// `s` without its trailing white space.
pub open spec fn trimmed_end(s: Seq<char>) -> Seq<char>
    decreases s.len(),
{
    if s.len() > 0 && is_space(s.last()) {
        trimmed_end(s.drop_last())
    } else {
        s
    }
}

/// `s` without white space at either end.
pub open spec fn trimmed(s: Seq<char>) -> Seq<char> {
    trimmed_end(trimmed_start(s))
}

/// `s` without the run of `c` at its end.
pub open spec fn without_trailing(s: Seq<char>, c: char) -> Seq<char>
    decreases s.len(),
{
    if s.len() > 0 && s.last() == c {
        without_trailing(s.drop_last(), c)
    } else {
        s
    }
}

/// The characters of `s`, in order.
pub fn chars_of(s: &str) -> (r: Vec<char>)
    ensures
        r@ == s@,
{
    let mut out: Vec<char> = Vec::new();
    for c in it: s.chars()
        invariant
            out@ == s@.take(it.index() as int),
            it.seq() == s@,
    {
        out.push(c);
    }
    out
}

/// The text of `cs[from..to]`.
pub fn text_of(cs: &Vec<char>, from: usize, to: usize) -> (r: String)
    requires
        from <= to <= cs@.len(),
    ensures
        r@ == cs@.subrange(from as int, to as int),
{
    let mut out = String::new();
    let mut i: usize = from;
    while i < to
        invariant
            from <= i <= to <= cs@.len(),
            out@ == cs@.subrange(from as int, i as int),
        decreases to - i,
    {
        out.push(cs[i]);
        i += 1;
    }
    out
}

/// Leaving out leading white space does not change what trimming leaves.
proof fn lemma_trimmed_start_skip(s: Seq<char>, lo: int)
    requires
        0 <= lo <= s.len(),
        forall|i: int| 0 <= i < lo ==> is_space(#[trigger] s[i]),
    ensures
        trimmed_start(s) == trimmed_start(s.skip(lo)),
    decreases lo,
{
    if lo > 0 {
        lemma_trimmed_start_skip(s.skip(1), lo - 1);
        assert(s.skip(1).skip(lo - 1) =~= s.skip(lo));
    } else {
        assert(s.skip(0) =~= s);
    }
}

/// Leaving out trailing white space does not change what trimming leaves.
proof fn lemma_trimmed_end_take(s: Seq<char>, hi: int)
    requires
        0 <= hi <= s.len(),
        forall|i: int| hi <= i < s.len() ==> is_space(#[trigger] s[i]),
    ensures
        trimmed_end(s) == trimmed_end(s.take(hi)),
    decreases s.len() - hi,
{
    if hi < s.len() {
        lemma_trimmed_end_take(s.drop_last(), hi);
        assert(s.drop_last().take(hi) =~= s.take(hi));
    } else {
        assert(s.take(hi) =~= s);
    }
}

/// Leaving out a part of the run at the end does not change what is left
/// without it.
proof fn lemma_without_trailing_take(s: Seq<char>, c: char, hi: int)
    requires
        0 <= hi <= s.len(),
        forall|i: int| hi <= i < s.len() ==> #[trigger] s[i] == c,
    ensures
        without_trailing(s, c) == without_trailing(s.take(hi), c),
    decreases s.len() - hi,
{
    if hi < s.len() {
        lemma_without_trailing_take(s.drop_last(), c, hi);
        assert(s.drop_last().take(hi) =~= s.take(hi));
    } else {
        assert(s.take(hi) =~= s);
    }
}

/// `s` without white space at either end, as a slice of `s`.
pub fn trim(s: &str) -> (r: &str)
    ensures
        r@ == trimmed(s@),
{
    let cs = chars_of(s);
    let mut lo: usize = 0;
    while lo < cs.len() && is_whitespace(cs[lo])
        invariant
            lo <= cs@.len(),
            forall|i: int| 0 <= i < lo ==> is_space(#[trigger] cs@[i]),
        decreases cs@.len() - lo,
    {
        lo += 1;
    }
    let mut hi: usize = cs.len();
    while hi > lo && is_whitespace(cs[hi - 1])
        invariant
            lo <= hi <= cs@.len(),
            forall|i: int| hi <= i < cs@.len() ==> is_space(#[trigger] cs@[i]),
        decreases hi,
    {
        hi -= 1;
    }
    proof {
        lemma_trimmed_start_skip(s@, lo as int);
        let t = s@.skip(lo as int);
        assert(t.len() > 0 ==> t[0] == s@[lo as int]);
        assert(trimmed_start(s@) == t);
        assert forall|i: int| hi - lo <= i < t.len() implies is_space(#[trigger] t[i]) by {
            assert(t[i] == s@[i + lo]);
        }
        lemma_trimmed_end_take(t, hi - lo);
        assert(t.take(hi - lo) =~= s@.subrange(lo as int, hi as int));
        let u = s@.subrange(lo as int, hi as int);
        assert(u.len() > 0 ==> u.last() == s@[hi - 1]);
    }
    s.substring_char(lo, hi)
}

/// `s` without the run of `c` at its end, as a slice of `s`.
pub fn trim_end_char(s: &str, c: char) -> (r: &str)
    ensures
        r@ == without_trailing(s@, c),
{
    let cs = chars_of(s);
    let mut hi: usize = cs.len();
    while hi > 0 && cs[hi - 1] == c
        invariant
            hi <= cs@.len(),
            forall|i: int| hi <= i < cs@.len() ==> #[trigger] cs@[i] == c,
        decreases hi,
    {
        hi -= 1;
    }
    proof {
        lemma_without_trailing_take(s@, c, hi as int);
        assert(s@.take(hi as int) =~= s@.subrange(0, hi as int));
        let u = s@.take(hi as int);
        assert(u.len() > 0 ==> u.last() == s@[hi - 1]);
    }
    s.substring_char(0, hi)
}

/// Whether `s` is white space only, which is when trimming leaves nothing.
pub open spec fn blank(s: Seq<char>) -> bool {
    forall|i: int| 0 <= i < s.len() ==> is_space(#[trigger] s[i])
}

/// Trimming leaves nothing exactly when there is white space only.
pub proof fn law_trimmed_empty_iff_blank(s: Seq<char>)
    ensures
        trimmed(s).len() == 0 <==> blank(s),
    decreases s.len(),
{
    if s.len() > 0 && is_space(s[0]) {
        law_trimmed_empty_iff_blank(s.skip(1));
        if blank(s.skip(1)) {
            assert forall|i: int| 0 <= i < s.len() implies is_space(#[trigger] s[i]) by {
                if i > 0 {
                    assert(s.skip(1)[i - 1] == s[i]);
                }
            }
        }
        if blank(s) {
            assert forall|i: int| 0 <= i < s.skip(1).len() implies is_space(
                #[trigger] s.skip(1)[i],
            ) by {
                assert(s[i + 1] == s.skip(1)[i]);
            }
        }
    } else if s.len() > 0 {
        lemma_trimmed_end_keeps_first(s);
    }
}

proof fn lemma_trimmed_end_keeps_first(s: Seq<char>)
    requires
        s.len() > 0,
        !is_space(s[0]),
    ensures
        trimmed_end(s).len() > 0,
        trimmed_end(s)[0] == s[0],
    decreases s.len(),
{
    if is_space(s.last()) {
        lemma_trimmed_end_keeps_first(s.drop_last());
    }
}

/// White space around a text does not matter to what trimming leaves.
pub proof fn law_trimmed_ignores_space_around(before: Seq<char>, s: Seq<char>, behind: Seq<char>)
    requires
        blank(before),
        blank(behind),
    ensures
        trimmed(before + s + behind) == trimmed(s),
{
    let whole = before + s + behind;
    assert forall|i: int| 0 <= i < before.len() implies is_space(#[trigger] whole[i]) by {
        assert(whole[i] == before[i]);
    }
    lemma_trimmed_start_skip(whole, before.len() as int);
    assert(whole.skip(before.len() as int) =~= s + behind);
    lemma_trimmed_ignores_space_behind(s, behind);
}

proof fn lemma_trimmed_ignores_space_behind(s: Seq<char>, behind: Seq<char>)
    requires
        blank(behind),
    ensures
        trimmed(s + behind) == trimmed(s),
    decreases s.len(),
{
    if s.len() == 0 {
        assert(s + behind =~= behind);
        law_trimmed_empty_iff_blank(behind);
        law_trimmed_empty_iff_blank(s);
        assert(trimmed(s + behind) =~= trimmed(s));
    } else if is_space(s[0]) {
        assert((s + behind).skip(1) =~= s.skip(1) + behind);
        lemma_trimmed_ignores_space_behind(s.skip(1), behind);
    } else {
        let whole = s + behind;
        assert forall|i: int| s.len() <= i < whole.len() implies is_space(#[trigger] whole[i]) by {
            assert(whole[i] == behind[i - s.len()]);
        }
        lemma_trimmed_end_take(whole, s.len() as int);
        assert(whole.take(s.len() as int) =~= s);
    }
}

/// Trimming leaves no white space at either end.
pub proof fn law_trimmed_has_no_space_around(s: Seq<char>)
    ensures
        trimmed(s).len() > 0 ==> !is_space(trimmed(s)[0]) && !is_space(trimmed(s).last()),
    decreases s.len(),
{
    if s.len() > 0 && is_space(s[0]) {
        law_trimmed_has_no_space_around(s.skip(1));
    } else if s.len() > 0 {
        lemma_trimmed_end_keeps_first(s);
        lemma_trimmed_end_last(s);
    }
}

proof fn lemma_trimmed_end_last(s: Seq<char>)
    ensures
        trimmed_end(s).len() > 0 ==> !is_space(trimmed_end(s).last()),
    decreases s.len(),
{
    if s.len() > 0 && is_space(s.last()) {
        lemma_trimmed_end_last(s.drop_last());
    }
}

/// What is left without the run of a character at the end does not end in it.
pub proof fn law_without_trailing_does_not_end_in_it(s: Seq<char>, c: char)
    ensures
        without_trailing(s, c).len() > 0 ==> without_trailing(s, c).last() != c,
    decreases s.len(),
{
    if s.len() > 0 && s.last() == c {
        law_without_trailing_does_not_end_in_it(s.drop_last(), c);
    }
}

/// The index of the first `c` in `s`, or the length of `s`.
pub open spec fn first_index(s: Seq<char>, c: char) -> int
    decreases s.len(),
{
    if s.len() == 0 || s[0] == c {
        0
    } else {
        1 + first_index(s.skip(1), c)
    }
}

/// `s` without one carriage return at its end.
pub open spec fn without_return(s: Seq<char>) -> Seq<char> {
    if s.len() > 0 && s.last() == '\r' {
        s.drop_last()
    } else {
        s
    }
}

/// The lines of `s`: each ends at a line feed, which goes with a carriage
/// return before it; the last one may end with the text instead, and is then
/// taken as it stands. Text that ends with a line feed has no empty last line.
pub open spec fn text_lines(s: Seq<char>) -> Seq<Seq<char>>
    decreases s.len(),
    via text_lines_decreases
{
    let i = first_index(s, '\n');
    if s.len() == 0 {
        Seq::empty()
    } else if i >= s.len() {
        seq![s]
    } else {
        seq![without_return(s.take(i))] + text_lines(s.skip(i + 1))
    }
}

#[via_fn]
proof fn text_lines_decreases(s: Seq<char>) {
    lemma_first_index(s, '\n');
}

/// What `first_index` finds.
proof fn lemma_first_index(s: Seq<char>, c: char)
    ensures
        0 <= first_index(s, c) <= s.len(),
        first_index(s, c) < s.len() ==> s[first_index(s, c)] == c,
        forall|i: int| 0 <= i < first_index(s, c) ==> #[trigger] s[i] != c,
    decreases s.len(),
{
    if s.len() > 0 && s[0] != c {
        lemma_first_index(s.skip(1), c);
        assert forall|i: int| 0 <= i < first_index(s, c) implies #[trigger] s[i] != c by {
            if i > 0 {
                assert(s[i] == s.skip(1)[i - 1]);
            }
        }
    }
}

/// The only index with the properties of `first_index` is `first_index`.
proof fn lemma_first_index_unique(s: Seq<char>, c: char, k: int)
    requires
        0 <= k <= s.len(),
        k < s.len() ==> s[k] == c,
        forall|i: int| 0 <= i < k ==> #[trigger] s[i] != c,
    ensures
        first_index(s, c) == k,
{
    lemma_first_index(s, c);
    let f = first_index(s, c);
    if f < k {
        assert(s[f] != c);
    }
    if k < f {
        assert(s[k] != c);
    }
}

/// The views of a list of strings.
pub open spec fn texts(v: Seq<String>) -> Seq<Seq<char>> {
    v.map_values(|s: String| s@)
}

/// The lines of `content`.
pub fn lines(content: &str) -> (r: Vec<String>)
    ensures
        texts(r@) == text_lines(content@),
{
    let cs = chars_of(content);
    let n = cs.len();
    let mut out: Vec<String> = Vec::new();
    let mut start: usize = 0;
    let mut i: usize = 0;
    assert(content@.skip(0) =~= content@);
    while i < n
        invariant
            n == cs@.len(),
            start <= i <= n,
            forall|k: int| start <= k < i ==> #[trigger] cs@[k] != '\n',
            text_lines(cs@) == texts(out@) + text_lines(cs@.skip(start as int)),
        decreases n - i,
    {
        if cs[i] == '\n' {
            let end: usize = if i > start && cs[i - 1] == '\r' {
                i - 1
            } else {
                i
            };
            let line = text_of(&cs, start, end);
            proof {
                let s = cs@.skip(start as int);
                let k = i - start;
                assert(s[k] == cs@[i as int]);
                assert forall|j: int| 0 <= j < k implies #[trigger] s[j] != '\n' by {
                    assert(s[j] == cs@[j + start]);
                }
                lemma_first_index_unique(s, '\n', k as int);
                assert(s.take(k as int) =~= cs@.subrange(start as int, i as int));
                assert(without_return(s.take(k as int)) =~= line@);
                assert(s.skip(k + 1) =~= cs@.skip(i + 1));
                assert(text_lines(s) == seq![line@] + text_lines(cs@.skip(i + 1)));
                assert(texts(out@.push(line)) =~= texts(out@) + seq![line@]);
                assert(texts(out@) + (seq![line@] + text_lines(cs@.skip(i + 1))) =~= texts(
                    out@.push(line),
                ) + text_lines(cs@.skip(i + 1)));
            }
            out.push(line);
            start = i + 1;
        }
        i += 1;
    }
    if start < n {
        let line = text_of(&cs, start, n);
        proof {
            let s = cs@.skip(start as int);
            assert forall|j: int| 0 <= j < s.len() implies #[trigger] s[j] != '\n' by {
                assert(s[j] == cs@[j + start]);
            }
            lemma_first_index_unique(s, '\n', s.len() as int);
            assert(line@ =~= s);
            assert(texts(out@.push(line)) =~= texts(out@) + seq![line@]);
        }
        out.push(line);
    } else {
        proof {
            assert(cs@.skip(start as int).len() == 0);
            assert(texts(out@) + text_lines(cs@.skip(start as int)) =~= texts(out@));
        }
    }
    out
}

/// Whether `pat` stands in `s` at index `i`.
pub open spec fn occurs_at(s: Seq<char>, pat: Seq<char>, i: int) -> bool {
    0 <= i && i + pat.len() <= s.len() && s.subrange(i, i + pat.len()) == pat
}

/// `s` with each occurrence of `pat`, found from the left and not overlapping,
/// replaced by `with`.
pub open spec fn replaced(s: Seq<char>, pat: Seq<char>, with: Seq<char>) -> Seq<char>
    decreases s.len(),
{
    if s.len() == 0 || pat.len() == 0 {
        s
    } else if occurs_at(s, pat, 0) {
        with + replaced(s.skip(pat.len() as int), pat, with)
    } else {
        seq![s[0]] + replaced(s.skip(1), pat, with)
    }
}

/// Whether `pat` stands in `cs` at index `i`.
fn stands_at(cs: &Vec<char>, pat: &Vec<char>, i: usize) -> (r: bool)
    requires
        i <= cs@.len(),
    ensures
        r == occurs_at(cs@, pat@, i as int),
{
    let n = cs.len();
    if pat.len() > n - i {
        return false;
    }
    let mut k: usize = 0;
    while k < pat.len()
        invariant
            k <= pat@.len(),
            i + pat@.len() <= n == cs@.len(),
            forall|j: int| 0 <= j < k ==> cs@[i + j] == #[trigger] pat@[j],
        decreases pat@.len() - k,
    {
        if cs[i + k] != pat[k] {
            assert(cs@.subrange(i as int, i + pat@.len())[k as int] != pat@[k as int]);
            return false;
        }
        k += 1;
    }
    assert(cs@.subrange(i as int, i + pat@.len()) =~= pat@);
    true
}

/// `s` with each occurrence of `pat` replaced by `with`.
pub fn replace_all(s: &str, pat: &str, with: &str) -> (r: String)
    requires
        pat@.len() > 0,
    ensures
        r@ == replaced(s@, pat@, with@),
{
    let cs = chars_of(s);
    let ps = chars_of(pat);
    let mut out = String::new();
    let mut i: usize = 0;
    assert(s@.skip(0) =~= s@);
    while i < cs.len()
        invariant
            i <= cs@.len(),
            ps@ == pat@,
            pat@.len() > 0,
            cs@ == s@,
            replaced(s@, pat@, with@) == out@ + replaced(s@.skip(i as int), pat@, with@),
        decreases cs@.len() - i,
    {
        let ghost rest = s@.skip(i as int);
        let ghost before = out@;
        if stands_at(&cs, &ps, i) {
            proof {
                assert(rest.subrange(0, pat@.len() as int) =~= s@.subrange(
                    i as int,
                    i + pat@.len(),
                ));
                assert(rest.skip(pat@.len() as int) =~= s@.skip(i + pat@.len()));
                assert(before + (with@ + replaced(s@.skip(i + pat@.len()), pat@, with@)) =~= (before
                    + with@) + replaced(s@.skip(i + pat@.len()), pat@, with@));
            }
            out.append(with);
            i += ps.len();
        } else {
            proof {
                if occurs_at(rest, pat@, 0) {
                    assert(rest.subrange(0, pat@.len() as int) =~= s@.subrange(
                        i as int,
                        i + pat@.len(),
                    ));
                }
                assert(rest.skip(1) =~= s@.skip(i + 1));
                assert(before + (seq![rest[0]] + replaced(s@.skip(i + 1), pat@, with@))
                    =~= before.push(rest[0]) + replaced(s@.skip(i + 1), pat@, with@));
            }
            out.push(cs[i]);
            i += 1;
        }
    }
    assert(s@.skip(i as int).len() == 0);
    assert(out@ + replaced(s@.skip(i as int), pat@, with@) =~= out@);
    out
}

/// The decimal digit for `d`.
pub open spec fn digit(d: nat) -> char {
    if d == 0 {
        '0'
    } else if d == 1 {
        '1'
    } else if d == 2 {
        '2'
    } else if d == 3 {
        '3'
    } else if d == 4 {
        '4'
    } else if d == 5 {
        '5'
    } else if d == 6 {
        '6'
    } else if d == 7 {
        '7'
    } else if d == 8 {
        '8'
    } else {
        '9'
    }
}

/// The decimal numeral of `n`, without leading zeros.
pub open spec fn decimal(n: nat) -> Seq<char>
    decreases n,
{
    if n < 10 {
        seq![digit(n)]
    } else {
        decimal(n / 10).push(digit(n % 10))
    }
}

/// The decimal digit for `d`.
fn digit_char(d: u64) -> (r: char)
    requires
        d < 10,
    ensures
        r == digit(d as nat),
{
    match d {
        0 => '0',
        1 => '1',
        2 => '2',
        3 => '3',
        4 => '4',
        5 => '5',
        6 => '6',
        7 => '7',
        8 => '8',
        _ => '9',
    }
}

/// The decimal numeral of `n`.
pub fn decimal_text(n: u64) -> (r: String)
    ensures
        r@ == decimal(n as nat),
    decreases n,
{
    if n < 10 {
        let mut out = String::new();
        out.push(digit_char(n));
        assert(out@ =~= seq![digit(n as nat)]);
        out
    } else {
        let mut out = decimal_text(n / 10);
        out.push(digit_char(n % 10));
        out
    }
}

/// The first `n` characters of `s`, or all of them.
pub fn first_chars(s: &str, n: usize) -> (r: String)
    ensures
        r@ == (if s@.len() <= n {
            s@
        } else {
            s@.take(n as int)
        }),
{
    let cs = chars_of(s);
    let to: usize = if cs.len() <= n {
        cs.len()
    } else {
        n
    };
    assert(cs@.subrange(0, cs@.len() as int) =~= cs@);
    assert(cs@.len() > n ==> cs@.subrange(0, n as int) =~= cs@.take(n as int));
    text_of(&cs, 0, to)
}

/// Different numbers have different numerals.
pub proof fn law_decimal_is_injective(m: nat, n: nat)
    requires
        decimal(m) == decimal(n),
    ensures
        m == n,
    decreases m,
{
    law_decimal_digits(m / 10);
    law_decimal_digits(n / 10);
    assert(decimal(m).last() == digit(m % 10));
    assert(decimal(n).last() == digit(n % 10));
    assert(m % 10 == n % 10);
    assert(decimal(m).len() == 1 <==> m < 10);
    assert(decimal(n).len() == 1 <==> n < 10);
    if m >= 10 {
        assert(decimal(m).drop_last() =~= decimal(m / 10));
        assert(decimal(n).drop_last() =~= decimal(n / 10));
        law_decimal_is_injective(m / 10, n / 10);
    }
}

/// A numeral is made of digits.
pub proof fn law_decimal_digits(n: nat)
    ensures
        decimal(n).len() > 0,
        forall|i: int| 0 <= i < decimal(n).len() ==> '0' <= #[trigger] decimal(n)[i] <= '9',
    decreases n,
{
    if n >= 10 {
        law_decimal_digits(n / 10);
    }
}

/// Whether `w` is a word in double quotes, without a quote inside.
pub open spec fn quoted(w: Seq<char>) -> bool {
    &&& w.len() >= 2
    &&& w[0] == '"'
    &&& w.last() == '"'
    &&& forall|i: int| 0 < i < w.len() - 1 ==> #[trigger] w[i] != '"'
}

/// Whether `pat` stands nowhere in `s`.
pub open spec fn free_of(s: Seq<char>, pat: Seq<char>) -> bool {
    forall|i: int| !#[trigger] occurs_at(s, pat, i)
}

/// What is free of a pattern stays so without its first characters.
proof fn lemma_free_of_skip(s: Seq<char>, pat: Seq<char>, k: int)
    requires
        free_of(s, pat),
        0 <= k <= s.len(),
    ensures
        free_of(s.skip(k), pat),
{
    assert forall|i: int| !#[trigger] occurs_at(s.skip(k), pat, i) by {
        if occurs_at(s.skip(k), pat, i) {
            assert(s.subrange(i + k, i + k + pat.len()) =~= s.skip(k).subrange(i, i + pat.len()));
            assert(occurs_at(s, pat, i + k));
        }
    }
}

/// Replacing what is not there changes nothing.
pub proof fn law_replacing_nothing_changes_nothing(s: Seq<char>, pat: Seq<char>, with: Seq<char>)
    requires
        free_of(s, pat),
    ensures
        replaced(s, pat, with) == s,
    decreases s.len(),
{
    if s.len() > 0 && pat.len() > 0 {
        assert(!occurs_at(s, pat, 0));
        lemma_free_of_skip(s, pat, 1);
        law_replacing_nothing_changes_nothing(s.skip(1), pat, with);
        assert(seq![s[0]] + s.skip(1) =~= s);
    }
}

/// Up to its first quote, a text with quoted words replaced is the text itself.
proof fn lemma_replaced_prefix(t: Seq<char>, a: Seq<char>, b: Seq<char>, j: int)
    requires
        quoted(a),
        quoted(b),
        0 <= j < replaced(t, a, b).len(),
        forall|i: int| 0 <= i < j ==> #[trigger] replaced(t, a, b)[i] != '"',
    ensures
        j < t.len(),
        forall|i: int| 0 <= i <= j ==> t[i] == #[trigger] replaced(t, a, b)[i],
    decreases t.len(),
{
    let r = replaced(t, a, b);
    if t.len() > 0 {
        if occurs_at(t, a, 0) {
            assert(t.subrange(0, a.len() as int)[0] == t[0]);
            assert(r[0] == '"');
            assert(j == 0);
        } else if j > 0 {
            let rest = replaced(t.skip(1), a, b);
            assert forall|i: int| 0 <= i < j - 1 implies #[trigger] rest[i] != '"' by {
                assert(r[i + 1] == rest[i]);
            }
            lemma_replaced_prefix(t.skip(1), a, b, j - 1);
            assert forall|i: int| 0 <= i <= j implies t[i] == #[trigger] r[i] by {
                if i > 0 {
                    assert(r[i] == rest[i - 1]);
                    assert(t.skip(1)[i - 1] == t[i]);
                }
            }
        }
    }
}

/// Replacing quoted words leaves the ends of a text as they are.
proof fn lemma_replaced_ends(t: Seq<char>, a: Seq<char>, b: Seq<char>)
    requires
        quoted(a),
        quoted(b),
    ensures
        t.len() == 0 <==> replaced(t, a, b).len() == 0,
        t.len() > 0 ==> replaced(t, a, b)[0] == t[0] && replaced(t, a, b).last() == t.last(),
    decreases t.len(),
{
    if t.len() > 0 {
        if occurs_at(t, a, 0) {
            let n = a.len() as int;
            lemma_replaced_ends(t.skip(n), a, b);
            assert(t.subrange(0, a.len() as int)[0] == t[0]);
            assert(t.subrange(0, a.len() as int)[n - 1] == t[n - 1]);
        } else {
            lemma_replaced_ends(t.skip(1), a, b);
        }
    }
}

/// Replacing one quoted word by another that the text did not hold is undone by
/// replacing it back.
pub proof fn law_replacing_is_undone(s: Seq<char>, a: Seq<char>, b: Seq<char>)
    requires
        quoted(a),
        quoted(b),
        free_of(s, b),
    ensures
        replaced(replaced(s, a, b), b, a) == s,
    decreases s.len(),
{
    let r = replaced(s, a, b);
    if s.len() > 0 {
        if occurs_at(s, a, 0) {
            let n = a.len() as int;
            let rest = replaced(s.skip(n), a, b);
            lemma_free_of_skip(s, b, n);
            law_replacing_is_undone(s.skip(n), a, b);
            assert(r.subrange(0, b.len() as int) =~= b);
            assert(occurs_at(r, b, 0));
            assert(r.skip(b.len() as int) =~= rest);
            assert(s.subrange(0, a.len() as int) + s.skip(n) =~= s);
        } else {
            let rest = replaced(s.skip(1), a, b);
            lemma_free_of_skip(s, b, 1);
            law_replacing_is_undone(s.skip(1), a, b);
            assert(r.skip(1) =~= rest);
            assert(r[0] == s[0]);
            assert(!occurs_at(r, b, 0)) by {
                if occurs_at(r, b, 0) {
                    let j = b.len() - 2;
                    assert forall|i: int| 0 <= i <= j implies #[trigger] rest[i] == b[i + 1] by {
                        assert(r.subrange(0, b.len() as int)[i + 1] == r[i + 1]);
                        assert(r[i + 1] == rest[i]);
                    }
                    lemma_replaced_prefix(s.skip(1), a, b, j);
                    assert(r.subrange(0, b.len() as int)[0] == r[0]);
                    assert(s.subrange(0, b.len() as int) =~= b) by {
                        assert forall|i: int| 0 <= i < b.len() implies s[i] == b[i] by {
                            if i > 0 {
                                assert(s.skip(1)[i - 1] == s[i]);
                                assert(rest[i - 1] == b[i]);
                            }
                        }
                    }
                    assert(occurs_at(s, b, 0));
                }
            }
            assert(seq![s[0]] + s.skip(1) =~= s);
        }
    }
}

/// Replacing quoted words in a trimmed text leaves it trimmed.
pub proof fn law_replacing_keeps_trimmed(s: Seq<char>, a: Seq<char>, b: Seq<char>)
    requires
        quoted(a),
        quoted(b),
    ensures
        trimmed(replaced(trimmed(s), a, b)) == replaced(trimmed(s), a, b),
        trimmed(s).len() == 0 <==> replaced(trimmed(s), a, b).len() == 0,
{
    law_trimmed_has_no_space_around(s);
    lemma_replaced_ends(trimmed(s), a, b);
}

/// A line put behind a text whose lines are all ended is one more line.
pub proof fn law_a_line_behind_is_one_more_line(s: Seq<char>, line: Seq<char>)
    requires
        s.len() > 0 ==> s.last() == '\n',
        line.len() > 0,
        forall|i: int| 0 <= i < line.len() ==> #[trigger] line[i] != '\n',
    ensures
        text_lines(s + line) == text_lines(s).push(line),
    decreases s.len(),
{
    lemma_first_index(line, '\n');
    if s.len() == 0 {
        assert(s + line =~= line);
        assert(text_lines(s).push(line) =~= seq![line]);
    } else {
        let whole = s + line;
        let i = first_index(s, '\n');
        lemma_first_index(s, '\n');
        lemma_first_index(whole, '\n');
        assert(s[s.len() - 1] == '\n');
        assert(whole[i] == '\n');
        let k = first_index(whole, '\n');
        assert(k == i) by {
            if k < i {
                assert(whole[k] == s[k]);
            }
        }
        assert(whole.take(i) =~= s.take(i));
        assert(whole.skip(i + 1) =~= s.skip(i + 1) + line);
        if s.skip(i + 1).len() > 0 {
            assert(s.skip(i + 1).last() == s.last());
        }
        law_a_line_behind_is_one_more_line(s.skip(i + 1), line);
        let first = seq![without_return(s.take(i))];
        assert(first + text_lines(s.skip(i + 1)).push(line) =~= (first + text_lines(
            s.skip(i + 1),
        )).push(line));
    }
}

/// Trimming cuts a text at two places, with nothing but white space outside them
/// and no white space right inside them.
pub proof fn law_trimmed_is_the_middle(s: Seq<char>) -> (cut: (int, int))
    ensures
        0 <= cut.0 <= cut.1 <= s.len(),
        trimmed(s) == s.subrange(cut.0, cut.1),
        forall|i: int| 0 <= i < cut.0 ==> is_space(#[trigger] s[i]),
        forall|i: int| cut.1 <= i < s.len() ==> is_space(#[trigger] s[i]),
        cut.0 < cut.1 ==> !is_space(s[cut.0]) && !is_space(s[cut.1 - 1]),
    decreases s.len(),
{
    if s.len() > 0 && is_space(s[0]) {
        let rest = s.skip(1);
        let cut = law_trimmed_is_the_middle(rest);
        assert(rest.subrange(cut.0, cut.1) =~= s.subrange(cut.0 + 1, cut.1 + 1));
        assert forall|i: int| 0 <= i < cut.0 + 1 implies is_space(#[trigger] s[i]) by {
            if i > 0 {
                assert(rest[i - 1] == s[i]);
            }
        }
        assert forall|i: int| cut.1 + 1 <= i < s.len() implies is_space(#[trigger] s[i]) by {
            assert(rest[i - 1] == s[i]);
        }
        (cut.0 + 1, cut.1 + 1)
    } else {
        let hi = lemma_trimmed_end_cut(s);
        assert(s.take(hi) =~= s.subrange(0, hi));
        (0, hi)
    }
}

/// Trimming the end cuts a text at one place.
proof fn lemma_trimmed_end_cut(s: Seq<char>) -> (hi: int)
    ensures
        0 <= hi <= s.len(),
        trimmed_end(s) == s.take(hi),
        forall|i: int| hi <= i < s.len() ==> is_space(#[trigger] s[i]),
        hi > 0 ==> !is_space(s[hi - 1]),
    decreases s.len(),
{
    if s.len() > 0 && is_space(s.last()) {
        let hi = lemma_trimmed_end_cut(s.drop_last());
        assert(s.drop_last().take(hi) =~= s.take(hi));
        assert forall|i: int| hi <= i < s.len() implies is_space(#[trigger] s[i]) by {
            if i < s.len() - 1 {
                assert(s.drop_last()[i] == s[i]);
            }
        }
        hi
    } else {
        assert(s.take(s.len() as int) =~= s);
        s.len() as int
    }
}

/// What is left without the run of a character at the end is the text up to that
/// run.
pub proof fn law_without_trailing_is_the_rest(s: Seq<char>, c: char) -> (hi: int)
    ensures
        0 <= hi <= s.len(),
        without_trailing(s, c) == s.take(hi),
        forall|i: int| hi <= i < s.len() ==> #[trigger] s[i] == c,
        hi > 0 ==> s[hi - 1] != c,
    decreases s.len(),
{
    if s.len() > 0 && s.last() == c {
        let hi = law_without_trailing_is_the_rest(s.drop_last(), c);
        assert(s.drop_last().take(hi) =~= s.take(hi));
        assert forall|i: int| hi <= i < s.len() implies #[trigger] s[i] == c by {
            if i < s.len() - 1 {
                assert(s.drop_last()[i] == s[i]);
            }
        }
        hi
    } else {
        assert(s.take(s.len() as int) =~= s);
        s.len() as int
    }
}

/// The first line of a text is what stands before its first line feed, but for
/// one carriage return right before it; the other lines are those of the rest.
pub proof fn law_a_line_ends_at_its_line_feed(line: Seq<char>, rest: Seq<char>)
    requires
        forall|i: int| 0 <= i < line.len() ==> #[trigger] line[i] != '\n',
    ensures
        text_lines(line.push('\n') + rest).len() == 1 + text_lines(rest).len(),
        line.len() > 0 && line.last() == '\r' ==> text_lines(line.push('\n') + rest)[0]
            == line.drop_last(),
        line.len() == 0 || line.last() != '\r' ==> text_lines(line.push('\n') + rest)[0] == line,
        forall|i: int|
            0 <= i < text_lines(rest).len() ==> #[trigger] text_lines(line.push('\n') + rest)[i + 1]
                == text_lines(rest)[i],
{
    let s = line.push('\n') + rest;
    let k = first_index(s, '\n');
    lemma_first_index(s, '\n');
    assert(s[line.len() as int] == '\n');
    assert(k == line.len()) by {
        if k < line.len() {
            assert(s[k] == line[k]);
        }
    }
    assert(s.take(k) =~= line);
    assert(s.skip(k + 1) =~= rest);
}

/// A text without a line feed is one line as it stands, and no line if empty.
pub proof fn law_a_text_without_line_feed_is_one_line(s: Seq<char>)
    requires
        forall|i: int| 0 <= i < s.len() ==> #[trigger] s[i] != '\n',
    ensures
        s.len() == 0 ==> text_lines(s).len() == 0,
        s.len() > 0 ==> text_lines(s).len() == 1 && text_lines(s)[0] == s,
{
    lemma_first_index(s, '\n');
}

/// Replacing starts with the first place where the pattern stands, and goes on
/// behind it.
pub proof fn law_replacing_goes_from_the_left(
    s: Seq<char>,
    pat: Seq<char>,
    with: Seq<char>,
    i: int,
)
    requires
        pat.len() > 0,
        0 <= i,
        i + pat.len() <= s.len(),
        s.subrange(i, i + pat.len()) == pat,
        forall|j: int|
            0 <= j < i ==> #[trigger] s.subrange(j, j + pat.len()) != pat,
    ensures
        replaced(s, pat, with) == s.take(i) + with + replaced(s.skip(i + pat.len()), pat, with),
    decreases i,
{
    if i == 0 {
        assert(s.take(0) + with =~= with);
    } else {
        let rest = s.skip(1);
        assert(s.subrange(0, 0 + pat.len() as int) != pat);
        assert(!occurs_at(s, pat, 0));
        assert(rest.subrange(i - 1, i - 1 + pat.len()) =~= s.subrange(i, i + pat.len()));
        assert forall|j: int| 0 <= j < i - 1 implies #[trigger] rest.subrange(j, j + pat.len())
            != pat by {
            assert(rest.subrange(j, j + pat.len()) =~= s.subrange(j + 1, j + 1 + pat.len()));
        }
        law_replacing_goes_from_the_left(rest, pat, with, i - 1);
        assert(rest.skip(i - 1 + pat.len()) =~= s.skip(i + pat.len()));
        assert(seq![s[0]] + (rest.take(i - 1) + with + replaced(
            s.skip(i + pat.len()),
            pat,
            with,
        )) =~= s.take(i) + with + replaced(s.skip(i + pat.len()), pat, with));
    }
}

/// A text in which the pattern stands nowhere stays as it is.
pub proof fn law_replacing_needs_the_pattern(s: Seq<char>, pat: Seq<char>, with: Seq<char>)
    requires
        forall|i: int|
            0 <= i <= s.len() - pat.len() ==> #[trigger] s.subrange(i, i + pat.len()) != pat,
    ensures
        replaced(s, pat, with) == s,
{
    assert(free_of(s, pat));
    law_replacing_nothing_changes_nothing(s, pat, with);
}

/// The number that a row of decimal digits stands for.
pub open spec fn value_of(digits: Seq<char>) -> int
    decreases digits.len(),
{
    if digits.len() == 0 {
        0
    } else {
        10 * value_of(digits.drop_last()) + (digits.last() as int - '0' as int)
    }
}

/// A numeral stands for its number, and has no leading zero but that of zero.
pub proof fn law_a_numeral_stands_for_its_number(n: nat)
    ensures
        value_of(decimal(n)) == n,
        decimal(n).len() > 0,
        n > 0 ==> decimal(n)[0] != '0',
        n == 0 ==> decimal(n).len() == 1,
    decreases n,
{
    law_decimal_digits(n);
    if n >= 10 {
        law_a_numeral_stands_for_its_number(n / 10);
        assert(decimal(n).drop_last() =~= decimal(n / 10));
    } else {
        assert(decimal(n).drop_last() =~= Seq::empty());
        assert(value_of(Seq::empty()) == 0);
    }
}

} // verus!
