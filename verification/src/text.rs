//! Character-level text operations: blank characters, trimming, prefixes,
//! line and field splitting, and decimal numbers.
//!
//! Text is modelled as `Seq<char>`. The executable functions work on
//! `&[char]` and hand out sub-slices of their input.

use vstd::prelude::*;
use vstd::slice::slice_subrange;

verus! {

/// The characters that count as white space: the code points that carry
/// the Unicode `White_Space` property.
pub open spec fn is_blank(c: char) -> bool {
    let n = c as u32;
    ||| 0x09 <= n <= 0x0D
    ||| n == 0x20
    ||| n == 0x85
    ||| n == 0xA0
    ||| n == 0x1680
    ||| 0x2000 <= n <= 0x200A
    ||| n == 0x2028
    ||| n == 0x2029
    ||| n == 0x202F
    ||| n == 0x205F
    ||| n == 0x3000
}

/// Tests whether `c` is white space.
pub fn is_blank_char(c: char) -> (r: bool)
    ensures
        r == is_blank(c),
{
    let n: u32 = c as u32;
    (0x09 <= n && n <= 0x0D) || n == 0x20 || n == 0x85 || n == 0xA0 || n == 0x1680 || (0x2000 <= n
        && n <= 0x200A) || n == 0x2028 || n == 0x2029 || n == 0x202F || n == 0x205F || n == 0x3000
}

/// The characters of `s`, in order.
pub fn chars_of(s: &str) -> (r: Vec<char>)
    ensures
        r@ == s@,
{
    let mut out: Vec<char> = Vec::new();
    for c in it: s.chars()
        invariant
            out@ == it.seq().take(it.index() as int),
            it.seq() == s@,
    {
        out.push(c);
    }
    out
}

/// Appends one character to a `String`. Stands for `String::push`, which
/// adds the character at the end and changes nothing else.
#[verifier::external_body]
fn push_char(s: &mut String, c: char)
    ensures
        final(s)@ == old(s)@.push(c),
{
    s.push(c)
}

/// The string made of the characters of `v`, in order.
pub fn string_of(v: &[char]) -> (r: String)
    ensures
        r@ == v@,
{
    let mut out = String::new();
    let mut i: usize = 0;
    while i < v.len()
        invariant
            i <= v.len(),
            out@ == v@.take(i as int),
        decreases v.len() - i,
    {
        push_char(&mut out, v[i]);
        i += 1;
    }
    out
}

/// How many white-space characters `s` begins with.
pub open spec fn leading_blanks(s: Seq<char>) -> nat
    decreases s.len(),
{
    if s.len() > 0 && is_blank(s[0]) {
        1 + leading_blanks(s.drop_first())
    } else {
        0
    }
}

/// How many white-space characters `s` ends with.
pub open spec fn trailing_blanks(s: Seq<char>) -> nat
    decreases s.len(),
{
    if s.len() > 0 && is_blank(s.last()) {
        1 + trailing_blanks(s.drop_last())
    } else {
        0
    }
}

/// `s` without the white space at its start and at its end.
pub open spec fn trimmed(s: Seq<char>) -> Seq<char> {
    let t = s.skip(leading_blanks(s) as int);
    t.take(t.len() - trailing_blanks(t))
}

/// `leading_blanks(s)` is the one `k` such that the first `k` characters
/// are blank and the character after them, if any, is not.
pub proof fn lemma_leading_blanks(s: Seq<char>, k: int)
    requires
        0 <= k <= s.len(),
        forall|i: int| 0 <= i < k ==> is_blank(#[trigger] s[i]),
        k < s.len() ==> !is_blank(s[k]),
    ensures
        leading_blanks(s) == k,
    decreases k,
{
    if k > 0 {
        let rest = s.drop_first();
        assert forall|i: int| 0 <= i < k - 1 implies is_blank(#[trigger] rest[i]) by {
            assert(rest[i] == s[i + 1]);
        }
        lemma_leading_blanks(rest, k - 1);
    }
}

/// `trailing_blanks(s)` is the one `k` such that the last `k` characters
/// are blank and the character before them, if any, is not.
pub proof fn lemma_trailing_blanks(s: Seq<char>, k: int)
    requires
        0 <= k <= s.len(),
        forall|i: int| s.len() - k <= i < s.len() ==> is_blank(#[trigger] s[i]),
        k < s.len() ==> !is_blank(s[s.len() - k - 1]),
    ensures
        trailing_blanks(s) == k,
    decreases k,
{
    if k > 0 {
        let rest = s.drop_last();
        assert forall|i: int| rest.len() - (k - 1) <= i < rest.len() implies is_blank(
            #[trigger] rest[i],
        ) by {
            assert(rest[i] == s[i]);
        }
        lemma_trailing_blanks(rest, k - 1);
    }
}

/// `s` without the white space at its start and at its end.
pub fn trim<'a>(s: &'a [char]) -> (r: &'a [char])
    ensures
        r@ == trimmed(s@),
{
    let mut a: usize = 0;
    while a < s.len() && is_blank_char(s[a])
        invariant
            a <= s.len(),
            forall|i: int| 0 <= i < a ==> is_blank(#[trigger] s@[i]),
        decreases s.len() - a,
    {
        a += 1;
    }
    let mut b: usize = s.len();
    while b > a && is_blank_char(s[b - 1])
        invariant
            a <= b <= s.len(),
            forall|i: int| b <= i < s.len() ==> is_blank(#[trigger] s@[i]),
        decreases b,
    {
        b -= 1;
    }
    proof {
        lemma_leading_blanks(s@, a as int);
        let t = s@.skip(a as int);
        assert forall|i: int| t.len() - (s.len() - b) <= i < t.len() implies is_blank(
            #[trigger] t[i],
        ) by {
            assert(t[i] == s@[i + a]);
        }
        lemma_trailing_blanks(t, s.len() - b);
        assert(s@.subrange(a as int, b as int) =~= t.take(t.len() - (s.len() - b)));
    }
    slice_subrange(s, a, b)
}

/// The index of the first `c` in `s`, or `s.len()` where `s` holds none.
pub open spec fn index_of_char(s: Seq<char>, c: char) -> nat
    decreases s.len(),
{
    if s.len() == 0 || s[0] == c {
        0
    } else {
        1 + index_of_char(s.drop_first(), c)
    }
}

/// `index_of_char(s, c)` is the one `k` before which no `c` stands and at
/// which `c` stands, or the length of `s`.
pub proof fn lemma_index_of_char(s: Seq<char>, c: char, k: int)
    requires
        0 <= k <= s.len(),
        forall|i: int| 0 <= i < k ==> #[trigger] s[i] != c,
        k < s.len() ==> s[k] == c,
    ensures
        index_of_char(s, c) == k,
    decreases k,
{
    if k > 0 {
        let rest = s.drop_first();
        assert forall|i: int| 0 <= i < k - 1 implies #[trigger] rest[i] != c by {
            assert(rest[i] == s[i + 1]);
        }
        lemma_index_of_char(rest, c, k - 1);
    }
}

/// The index of the first `c` in `s`, or the length of `s` where there is
/// none.
pub fn find_char(s: &[char], c: char) -> (r: usize)
    ensures
        r == index_of_char(s@, c),
        r <= s.len(),
        r < s.len() ==> s@[r as int] == c,
        forall|i: int| 0 <= i < r ==> #[trigger] s@[i] != c,
{
    let mut k: usize = 0;
    while k < s.len() && s[k] != c
        invariant
            k <= s.len(),
            forall|i: int| 0 <= i < k ==> #[trigger] s@[i] != c,
        decreases s.len() - k,
    {
        k += 1;
    }
    proof {
        lemma_index_of_char(s@, c, k as int);
    }
    k
}

/// The texts that a list of slices holds.
pub open spec fn texts_of(v: Seq<&[char]>) -> Seq<Seq<char>> {
    v.map_values(|l: &[char]| l@)
}

/// `s` cut at every `sep`: the pieces between the separators, in order.
/// There is always at least one piece.
pub open spec fn split_on(s: Seq<char>, sep: char) -> Seq<Seq<char>>
    decreases s.len(),
{
    let n = index_of_char(s, sep) as int;
    if n >= s.len() {
        seq![s]
    } else {
        seq![s.take(n)] + split_on(s.skip(n + 1), sep)
    }
}

/// `s` cut at every `sep`.
pub fn split<'a>(s: &'a [char], sep: char) -> (r: Vec<&'a [char]>)
    ensures
        texts_of(r@) == split_on(s@, sep),
{
    let mut out: Vec<&'a [char]> = Vec::new();
    let mut pos: usize = 0;
    assert(s@.skip(0) =~= s@);
    loop
        invariant_except_break
            pos <= s.len(),
            texts_of(out@) + split_on(s@.skip(pos as int), sep) == split_on(s@, sep),
        ensures
            texts_of(out@) == split_on(s@, sep),
        decreases s.len() - pos,
    {
        let rest = slice_subrange(s, pos, s.len());
        assert(rest@ == s@.skip(pos as int));
        let n = find_char(rest, sep);
        let ghost before = out@;
        if n >= rest.len() {
            out.push(rest);
            assert(texts_of(out@) =~= texts_of(before) + seq![rest@]);
            break ;
        }
        let piece = slice_subrange(rest, 0, n);
        out.push(piece);
        pos = pos + n + 1;
        proof {
            assert(piece@ == rest@.take(n as int));
            assert(s@.skip(pos as int) =~= rest@.skip(n + 1));
            assert(texts_of(out@) =~= texts_of(before) + seq![piece@]);
            assert(texts_of(out@) + split_on(s@.skip(pos as int), sep) =~= texts_of(before) + (
            seq![piece@] + split_on(rest@.skip(n + 1), sep)));
        }
    }
    out
}

/// `line` without one carriage return at its end, if it has one.
pub open spec fn without_return(line: Seq<char>) -> Seq<char> {
    if line.len() > 0 && line.last() == '\r' {
        line.drop_last()
    } else {
        line
    }
}

/// The lines of `s`. A line ends at a line feed, or at a carriage return
/// followed by a line feed; neither belongs to the line. What follows the
/// last line feed is a line too unless it is empty, and it keeps a
/// carriage return at its end.
pub open spec fn lines_of(s: Seq<char>) -> Seq<Seq<char>>
    decreases s.len(),
{
    let n = index_of_char(s, '\n') as int;
    if s.len() == 0 {
        seq![]
    } else if n >= s.len() {
        seq![s]
    } else {
        seq![without_return(s.take(n))] + lines_of(s.skip(n + 1))
    }
}

/// The lines of `s`.
pub fn lines<'a>(s: &'a [char]) -> (r: Vec<&'a [char]>)
    ensures
        texts_of(r@) == lines_of(s@),
{
    let mut out: Vec<&'a [char]> = Vec::new();
    let mut pos: usize = 0;
    assert(s@.skip(0) =~= s@);
    while pos < s.len()
        invariant
            pos <= s.len(),
            texts_of(out@) + lines_of(s@.skip(pos as int)) == lines_of(s@),
        decreases s.len() - pos,
    {
        let rest = slice_subrange(s, pos, s.len());
        assert(rest@ == s@.skip(pos as int));
        let n = find_char(rest, '\n');
        let ghost before = out@;
        if n >= rest.len() {
            out.push(rest);
            pos = s.len();
            proof {
                assert(texts_of(out@) =~= texts_of(before) + seq![rest@]);
                assert(lines_of(s@.skip(pos as int)) =~= Seq::<Seq<char>>::empty());
                assert(texts_of(out@) + lines_of(s@.skip(pos as int)) =~= texts_of(before)
                    + lines_of(rest@));
            }
        } else {
            let end = if n > 0 && rest[n - 1] == '\r' {
                n - 1
            } else {
                n
            };
            let line = slice_subrange(rest, 0, end);
            out.push(line);
            pos = pos + n + 1;
            proof {
                assert(line@ =~= without_return(rest@.take(n as int)));
                assert(s@.skip(pos as int) =~= rest@.skip(n + 1));
                assert(texts_of(out@) =~= texts_of(before) + seq![line@]);
                assert(texts_of(out@) + lines_of(s@.skip(pos as int)) =~= texts_of(before) + (
                seq![line@] + lines_of(rest@.skip(n + 1))));
            }
        }
    }
    assert(texts_of(out@) + lines_of(s@.skip(pos as int)) =~= texts_of(out@));
    out
}

/// Whether `s` begins with `prefix`.
pub open spec fn starts_with(s: Seq<char>, prefix: Seq<char>) -> bool {
    prefix.len() <= s.len() && s.take(prefix.len() as int) == prefix
}

/// Whether `s` ends with `suffix`.
pub open spec fn ends_with(s: Seq<char>, suffix: Seq<char>) -> bool {
    suffix.len() <= s.len() && s.skip(s.len() - suffix.len()) == suffix
}

/// Whether `a` and `b` hold the same characters.
pub fn same_text(a: &[char], b: &[char]) -> (r: bool)
    ensures
        r == (a@ == b@),
{
    if a.len() != b.len() {
        return false;
    }
    let mut i: usize = 0;
    while i < a.len()
        invariant
            i <= a.len(),
            a.len() == b.len(),
            forall|j: int| 0 <= j < i ==> a@[j] == b@[j],
        decreases a.len() - i,
    {
        if a[i] != b[i] {
            return false;
        }
        i += 1;
    }
    assert(a@ =~= b@);
    true
}

/// Whether `s` begins with `prefix`.
pub fn has_prefix(s: &[char], prefix: &[char]) -> (r: bool)
    ensures
        r == starts_with(s@, prefix@),
{
    if prefix.len() > s.len() {
        return false;
    }
    same_text(slice_subrange(s, 0, prefix.len()), prefix)
}

/// Whether `s` ends with `suffix`.
pub fn has_suffix(s: &[char], suffix: &[char]) -> (r: bool)
    ensures
        r == ends_with(s@, suffix@),
{
    if suffix.len() > s.len() {
        return false;
    }
    same_text(slice_subrange(s, s.len() - suffix.len(), s.len()), suffix)
}

/// `s` without `prefix` at its start, where it begins with `prefix`.
pub open spec fn without_prefix(s: Seq<char>, prefix: Seq<char>) -> Option<Seq<char>> {
    if starts_with(s, prefix) {
        Some(s.skip(prefix.len() as int))
    } else {
        None
    }
}

/// `s` without `prefix` at its start, or `None` where `s` does not begin
/// with it.
pub fn strip_prefix<'a>(s: &'a [char], prefix: &[char]) -> (r: Option<&'a [char]>)
    ensures
        match r {
            Some(rest) => without_prefix(s@, prefix@) == Some(rest@),
            None => without_prefix(s@, prefix@).is_none(),
        },
{
    if has_prefix(s, prefix) {
        Some(slice_subrange(s, prefix.len(), s.len()))
    } else {
        None
    }
}

/// `s` after every copy of `prefix` that it begins with has been taken
/// away, one after another.
pub open spec fn without_leading(s: Seq<char>, prefix: Seq<char>) -> Seq<char>
    decreases s.len(),
{
    if prefix.len() > 0 && starts_with(s, prefix) {
        without_leading(s.skip(prefix.len() as int), prefix)
    } else {
        s
    }
}

/// `s` after every copy of `suffix` that it ends with has been taken away,
/// one after another.
pub open spec fn without_trailing(s: Seq<char>, suffix: Seq<char>) -> Seq<char>
    decreases s.len(),
{
    if suffix.len() > 0 && ends_with(s, suffix) {
        without_trailing(s.take(s.len() - suffix.len()), suffix)
    } else {
        s
    }
}

/// `s` without the copies of `prefix` that it begins with.
pub fn trim_leading<'a>(s: &'a [char], prefix: &[char]) -> (r: &'a [char])
    ensures
        r@ == without_leading(s@, prefix@),
{
    let mut pos: usize = 0;
    assert(s@.skip(0) =~= s@);
    if prefix.len() == 0 {
        return s;
    }
    loop
        invariant_except_break
            pos <= s.len(),
            prefix.len() > 0,
            without_leading(s@.skip(pos as int), prefix@) == without_leading(s@, prefix@),
        ensures
            pos <= s.len(),
            s@.skip(pos as int) == without_leading(s@, prefix@),
        decreases s.len() - pos,
    {
        let rest = slice_subrange(s, pos, s.len());
        assert(rest@ == s@.skip(pos as int));
        if !has_prefix(rest, prefix) {
            break ;
        }
        assert(s@.skip(pos + prefix.len()) =~= rest@.skip(prefix.len() as int));
        pos = pos + prefix.len();
    }
    slice_subrange(s, pos, s.len())
}

/// `s` without the copies of `suffix` that it ends with.
pub fn trim_trailing<'a>(s: &'a [char], suffix: &[char]) -> (r: &'a [char])
    ensures
        r@ == without_trailing(s@, suffix@),
{
    let mut end: usize = s.len();
    assert(s@.take(s.len() as int) =~= s@);
    if suffix.len() == 0 {
        return s;
    }
    loop
        invariant_except_break
            end <= s.len(),
            suffix.len() > 0,
            without_trailing(s@.take(end as int), suffix@) == without_trailing(s@, suffix@),
        ensures
            end <= s.len(),
            s@.take(end as int) == without_trailing(s@, suffix@),
        decreases end,
    {
        let rest = slice_subrange(s, 0, end);
        assert(rest@ == s@.take(end as int));
        if !has_suffix(rest, suffix) {
            break ;
        }
        assert(s@.take(end - suffix.len()) =~= rest@.take(rest.len() - suffix.len()));
        end = end - suffix.len();
    }
    slice_subrange(s, 0, end)
}

/// What follows the first `c` in `s`, or all of `s` where it holds none.
pub open spec fn after_first(s: Seq<char>, c: char) -> Seq<char> {
    let n = index_of_char(s, c) as int;
    if n < s.len() {
        s.skip(n + 1)
    } else {
        s
    }
}

/// What follows the first `c` in `s`, or all of `s` where it holds none.
pub fn skip_past_first<'a>(s: &'a [char], c: char) -> (r: &'a [char])
    ensures
        r@ == after_first(s@, c),
{
    let n = find_char(s, c);
    if n < s.len() {
        slice_subrange(s, n + 1, s.len())
    } else {
        s
    }
}

/// The index just after the last `c` in `s`, or 0 where `s` holds none.
pub open spec fn index_after_last(s: Seq<char>, c: char) -> nat
    decreases s.len(),
{
    if s.len() == 0 || s.last() == c {
        s.len()
    } else {
        index_after_last(s.drop_last(), c)
    }
}

/// What follows the last `c` in `s`, or all of `s` where it holds none.
pub open spec fn after_last(s: Seq<char>, c: char) -> Seq<char> {
    s.skip(index_after_last(s, c) as int)
}

/// `index_after_last(s, c)` is the one `k` from which on no `c` stands and
/// before which `c` stands, or 0.
pub proof fn lemma_index_after_last(s: Seq<char>, c: char, k: int)
    requires
        0 <= k <= s.len(),
        forall|i: int| k <= i < s.len() ==> #[trigger] s[i] != c,
        k > 0 ==> s[k - 1] == c,
    ensures
        index_after_last(s, c) == k,
    decreases s.len(),
{
    if k < s.len() {
        let rest = s.drop_last();
        assert forall|i: int| k <= i < rest.len() implies #[trigger] rest[i] != c by {
            assert(rest[i] == s[i]);
        }
        lemma_index_after_last(rest, c, k);
    }
}

/// What follows the last `c` in `s`, or all of `s` where it holds none.
pub fn skip_past_last<'a>(s: &'a [char], c: char) -> (r: &'a [char])
    ensures
        r@ == after_last(s@, c),
{
    let mut k: usize = s.len();
    while k > 0 && s[k - 1] != c
        invariant
            k <= s.len(),
            forall|i: int| k <= i < s.len() ==> #[trigger] s@[i] != c,
        decreases k,
    {
        k -= 1;
    }
    proof {
        lemma_index_after_last(s@, c, k as int);
    }
    slice_subrange(s, k, s.len())
}

/// Whether `s` holds `c`.
pub fn holds_char(s: &[char], c: char) -> (r: bool)
    ensures
        r == s@.contains(c),
{
    let n = find_char(s, c);
    n < s.len()
}

/// The order of texts: character by character, by code point; a text comes
/// before every longer text that begins with it.
pub open spec fn text_before(a: Seq<char>, b: Seq<char>) -> bool
    decreases a.len(),
{
    if b.len() == 0 {
        false
    } else if a.len() == 0 {
        true
    } else if a[0] != b[0] {
        a[0] < b[0]
    } else {
        text_before(a.drop_first(), b.drop_first())
    }
}

/// Texts that agree on their first `k` characters are ordered as what
/// follows those characters.
pub proof fn lemma_text_before_skip(a: Seq<char>, b: Seq<char>, k: int)
    requires
        0 <= k <= a.len(),
        k <= b.len(),
        a.take(k) == b.take(k),
    ensures
        text_before(a, b) == text_before(a.skip(k), b.skip(k)),
    decreases k,
{
    if k == 0 {
        assert(a.skip(0) =~= a);
        assert(b.skip(0) =~= b);
    } else {
        assert(a[0] == a.take(k)[0]);
        assert(b[0] == b.take(k)[0]);
        let ra = a.drop_first();
        let rb = b.drop_first();
        assert(ra.take(k - 1) =~= a.take(k).drop_first());
        assert(rb.take(k - 1) =~= b.take(k).drop_first());
        lemma_text_before_skip(ra, rb, k - 1);
        assert(ra.skip(k - 1) =~= a.skip(k));
        assert(rb.skip(k - 1) =~= b.skip(k));
    }
}

/// No text comes before itself.
pub proof fn lemma_text_before_irreflexive(a: Seq<char>)
    ensures
        !text_before(a, a),
    decreases a.len(),
{
    if a.len() > 0 {
        lemma_text_before_irreflexive(a.drop_first());
    }
}

/// Of two different texts, one comes before the other.
pub proof fn lemma_text_before_total(a: Seq<char>, b: Seq<char>)
    requires
        a != b,
    ensures
        text_before(a, b) || text_before(b, a),
    decreases a.len(),
{
    if a.len() > 0 && b.len() > 0 && a[0] == b[0] {
        if a.drop_first() == b.drop_first() {
            assert(a =~= seq![a[0]] + a.drop_first());
            assert(b =~= seq![b[0]] + b.drop_first());
        }
        lemma_text_before_total(a.drop_first(), b.drop_first());
    } else if a.len() == 0 && b.len() == 0 {
        assert(a =~= b);
    }
}

/// Two texts do not come before each other.
pub proof fn lemma_text_before_asymmetric(a: Seq<char>, b: Seq<char>)
    requires
        text_before(a, b),
    ensures
        !text_before(b, a),
    decreases a.len(),
{
    if a.len() > 0 && b.len() > 0 && a[0] == b[0] {
        lemma_text_before_asymmetric(a.drop_first(), b.drop_first());
    }
}

/// The order of texts is transitive.
pub proof fn lemma_text_before_transitive(a: Seq<char>, b: Seq<char>, c: Seq<char>)
    requires
        text_before(a, b),
        text_before(b, c),
    ensures
        text_before(a, c),
    decreases a.len(),
{
    if a.len() > 0 && a[0] == b[0] && b[0] == c[0] {
        lemma_text_before_transitive(a.drop_first(), b.drop_first(), c.drop_first());
    }
}

/// Whether `a` comes before `b` in the order of texts.
pub fn is_text_before(a: &[char], b: &[char]) -> (r: bool)
    ensures
        r == text_before(a@, b@),
{
    let mut i: usize = 0;
    while i < a.len() && i < b.len() && a[i] == b[i]
        invariant
            i <= a.len(),
            i <= b.len(),
            a@.take(i as int) == b@.take(i as int),
        decreases a.len() - i,
    {
        assert(a@.take(i + 1) =~= a@.take(i as int).push(a@[i as int]));
        assert(b@.take(i + 1) =~= b@.take(i as int).push(b@[i as int]));
        i += 1;
    }
    proof {
        lemma_text_before_skip(a@, b@, i as int);
    }
    if i >= b.len() {
        false
    } else if i >= a.len() {
        true
    } else {
        a[i] < b[i]
    }
}

/// Whether `c` is one of the ten decimal digits.
pub open spec fn is_digit(c: char) -> bool {
    '0' <= c <= '9'
}

/// Whether `s` consists of decimal digits only.
pub open spec fn all_digits(s: Seq<char>) -> bool {
    forall|i: int| 0 <= i < s.len() ==> is_digit(#[trigger] s[i])
}

/// The number that the decimal digits `s` write.
pub open spec fn digits_value(s: Seq<char>) -> int
    decreases s.len(),
{
    if s.len() == 0 {
        0
    } else {
        digits_value(s.drop_last()) * 10 + (s.last() as int - '0' as int)
    }
}

/// The number that `s` writes in decimal: an optional sign, `+` or `-`,
/// and then one digit or more. `None` where `s` is written otherwise.
pub open spec fn decimal_value(s: Seq<char>) -> Option<int> {
    let negative = s.len() > 0 && s[0] == '-';
    let signed = s.len() > 0 && (s[0] == '-' || s[0] == '+');
    let digits = if signed {
        s.skip(1)
    } else {
        s
    };
    if digits.len() == 0 || !all_digits(digits) {
        None
    } else if negative {
        Some(-digits_value(digits))
    } else {
        Some(digits_value(digits))
    }
}

/// The number that `s` writes in decimal, where it is written as
/// `decimal_value` asks and lies within the 64-bit signed integers.
pub open spec fn decimal_i64(s: Seq<char>) -> Option<i64> {
    match decimal_value(s) {
        Some(v) => if i64::MIN <= v <= i64::MAX {
            Some(v as i64)
        } else {
            None
        },
        None => None,
    }
}

/// Digits added at the end do not make the number smaller.
pub proof fn lemma_digits_value_grows(s: Seq<char>, k: int)
    requires
        0 <= k <= s.len(),
        all_digits(s),
    ensures
        0 <= digits_value(s.take(k)) <= digits_value(s),
    decreases s.len(),
{
    if k == s.len() {
        assert(s.take(k) =~= s);
        if s.len() > 0 {
            assert(all_digits(s.drop_last()));
            lemma_digits_value_grows(s.drop_last(), k - 1);
            assert(s.drop_last().take(k - 1) =~= s.drop_last());
        }
    } else {
        assert(all_digits(s.drop_last()));
        lemma_digits_value_grows(s.drop_last(), k);
        assert(s.drop_last().take(k) =~= s.take(k));
        assert(is_digit(s.last()));
    }
}

/// Reads a 64-bit signed integer written in decimal.
pub fn parse_i64(s: &[char]) -> (r: Option<i64>)
    ensures
        r == decimal_i64(s@),
{
    let negative = s.len() > 0 && s[0] == '-';
    let start: usize = if s.len() > 0 && (s[0] == '-' || s[0] == '+') {
        1
    } else {
        0
    };
    let digits = slice_subrange(s, start, s.len());
    assert(digits@ =~= if start == 1 {
        s@.skip(1)
    } else {
        s@
    });
    if digits.len() == 0 {
        return None;
    }
    // The number is gathered as its negative, which reaches one further.
    let mut acc: i64 = 0;
    let mut i: usize = 0;
    while i < digits.len()
        invariant
            i <= digits.len(),
            digits.len() > 0,
            all_digits(digits@.take(i as int)),
            acc == -digits_value(digits@.take(i as int)),
            acc <= 0,
            decimal_value(s@) == if !all_digits(digits@) {
                None
            } else if negative {
                Some(-digits_value(digits@))
            } else {
                Some(digits_value(digits@))
            },
        decreases digits.len() - i,
    {
        let c = digits[i];
        let ghost next = digits@.take(i + 1);
        proof {
            assert(next.drop_last() =~= digits@.take(i as int));
            assert(next.last() == c);
        }
        if !('0' <= c && c <= '9') {
            assert(!is_digit(digits@[i as int]));
            return None;
        }
        let d: i64 = (c as u32 - '0' as u32) as i64;
        proof {
            assert forall|j: int| 0 <= j < next.len() implies is_digit(#[trigger] next[j]) by {
                if j < i {
                    assert(next[j] == digits@.take(i as int)[j]);
                }
            }
        }
        if acc < (i64::MIN + d) / 10 {
            proof {
                assert(digits_value(next) > -(i64::MIN as int));
                if all_digits(digits@) {
                    lemma_digits_value_grows(digits@, i + 1);
                }
            }
            return None;
        }
        acc = acc * 10 - d;
        i += 1;
    }
    assert(digits@.take(i as int) =~= digits@);
    if negative {
        Some(acc)
    } else if acc == i64::MIN {
        None
    } else {
        Some(-acc)
    }
}

} // verus!
