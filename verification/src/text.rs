//! Text helpers: the character-level operations that the rest of the crate
//! needs, each with an exact contract over `Seq<char>`.
use vstd::prelude::*;
use vstd::string::*;
use vstd::utf8::*;

verus! {

// ---------------------------------------------------------------------------
// Trusted: std functions without a specification of their own
// ---------------------------------------------------------------------------

/// The characters with the Unicode `White_Space` property.
pub open spec fn is_white_space(c: char) -> bool {
    ||| '\u{9}' <= c <= '\u{d}'
    ||| c == '\u{20}'
    ||| c == '\u{85}'
    ||| c == '\u{a0}'
    ||| c == '\u{1680}'
    ||| '\u{2000}' <= c <= '\u{200a}'
    ||| c == '\u{2028}'
    ||| c == '\u{2029}'
    ||| c == '\u{202f}'
    ||| c == '\u{205f}'
    ||| c == '\u{3000}'
}

/// `char::is_whitespace` tells the characters with the `White_Space` property
/// of the Unicode Character Database from all others.
pub assume_specification[ char::is_whitespace ](c: char) -> (r: bool)
    ensures
        r == is_white_space(c),
;

/// `String::push` appends one character.
pub assume_specification[ String::push ](s: &mut String, c: char)
    ensures
        final(s)@ == old(s)@.push(c),
;

/// What `str::to_lowercase` makes of a text beyond ASCII.
pub uninterp spec fn unicode_lowercase(s: Seq<char>) -> Seq<char>;

/// The lowercase form of one ASCII character.
pub open spec fn ascii_lower(c: char) -> char {
    if 'A' <= c <= 'Z' {
        ((c as u8) + 32) as char
    } else {
        c
    }
}

/// A text in lowercase: ASCII letters one by one, anything beyond as
/// `str::to_lowercase` has it.
pub open spec fn lowercase(s: Seq<char>) -> Seq<char> {
    if is_ascii_chars(s) {
        s.map_values(|c: char| ascii_lower(c))
    } else {
        unicode_lowercase(s)
    }
}

/// `str::to_lowercase` depends on the text alone. On a text of ASCII
/// characters it maps the letters `A` to `Z` to `a` to `z` and keeps the rest.
#[verifier::external_body]
pub(crate) fn to_lowercase(s: &str) -> (r: String)
    ensures
        r@ == lowercase(s@),
        !is_ascii_chars(s@) ==> r@ == unicode_lowercase(s@),
{
    s.to_lowercase()
}

/// What the `Debug` formatter writes for a text: the text in double quotes,
/// with the characters that need it escaped.
pub uninterp spec fn quoted(s: Seq<char>) -> Seq<char>;

/// Formatting a `str` with `{:?}` depends on the text alone. The escapes are
/// not spelled out.
#[verifier::external_body]
pub(crate) fn quote(s: &str) -> (r: String)
    ensures
        r@ == quoted(s@),
{
    format!("{s:?}")
}

/// The text with which `String::from_utf8` describes why some bytes are not
/// UTF-8.
pub uninterp spec fn utf8_fault_text(bytes: Seq<u8>) -> Seq<char>;

/// `String::from_utf8` decodes the bytes when they are valid UTF-8, and else
/// says why not in a text that depends on the bytes alone.
#[verifier::external_body]
pub(crate) fn string_from_utf8(bytes: Vec<u8>) -> (r: Result<String, String>)
    ensures
        match r {
            Ok(text) => valid_utf8(bytes@) && text@ == decode_utf8(bytes@),
            Err(fault) => !valid_utf8(bytes@) && fault@ == utf8_fault_text(bytes@),
        },
{
    String::from_utf8(bytes).map_err(|e| e.to_string())
}

// ---------------------------------------------------------------------------
// Characters and strings
// ---------------------------------------------------------------------------

/// The views of a list of strings.
pub open spec fn texts(v: Seq<String>) -> Seq<Seq<char>> {
    v.map_values(|s: String| s@)
}

/// The view of an optional string.
pub open spec fn opt_text(o: Option<String>) -> Option<Seq<char>> {
    match o {
        Some(s) => Some(s@),
        None => None,
    }
}

/// The view of an optional string slice.
pub open spec fn opt_str(o: Option<&str>) -> Option<Seq<char>> {
    match o {
        Some(s) => Some(s@),
        None => None,
    }
}

/// Collects the characters of `s`.
pub fn chars_of(s: &str) -> (r: Vec<char>)
    ensures
        r@ == s@,
{
    let mut out: Vec<char> = Vec::new();
    for c in it: s.chars()
        invariant
            it.seq() == s@,
            out@ == s@.take(it.index() as int),
    {
        proof {
            assert(s@.take(it.index() + 1) =~= s@.take(it.index() as int).push(c));
        }
        out.push(c);
    }
    assert(s@.take(s@.len() as int) =~= s@);
    out
}

/// The characters of `cs` from `from` up to `to`, as a string.
pub fn string_from(cs: &Vec<char>, from: usize, to: usize) -> (r: String)
    requires
        from <= to <= cs@.len(),
    ensures
        r@ == cs@.subrange(from as int, to as int),
{
    let mut out = String::new();
    let mut i: usize = from;
    while i < to
        invariant
            from <= i <= to <= cs@.len(),
            out@ == cs@.subrange(from as int, i as int),
        decreases to - i,
    {
        out.push(cs[i]);
        i = i + 1;
        proof {
            assert(cs@.subrange(from as int, i as int) =~= cs@.subrange(
                from as int,
                i - 1,
            ).push(cs@[i - 1]));
        }
    }
    out
}

/// Whether two texts are the same.
pub fn same_text(a: &str, b: &str) -> (r: bool)
    ensures
        r == (a@ == b@),
{
    let x = a.to_owned();
    let y = b.to_owned();
    x == y
}

/// A list of texts that starts with `first`.
pub(crate) fn text_and(first: String, rest: Vec<String>) -> (r: Vec<String>)
    ensures
        texts(r@) == seq![first@] + texts(rest@),
        rest@.len() == 0 ==> texts(r@) == seq![first@],
{
    let mut rest = rest;
    let mut out: Vec<String> = Vec::new();
    let ghost head = first@;
    let ghost tail = rest@;
    out.push(first);
    out.append(&mut rest);
    proof {
        assert(texts(out@) =~= seq![head] + texts(tail));
        if tail.len() == 0 {
            assert(texts(out@) =~= seq![head]);
        }
    }
    out
}

/// Two texts, one after the other.
pub fn join(a: &str, b: &str) -> (r: String)
    ensures
        r@ == a@ + b@,
{
    let mut out = a.to_owned();
    out.append(b);
    out
}

/// Concatenates three texts.
pub fn join3(a: &str, b: &str, c: &str) -> (r: String)
    ensures
        r@ == a@ + b@ + c@,
{
    let mut out = a.to_owned();
    out.append(b);
    out.append(c);
    out
}


// ---------------------------------------------------------------------------
// Searching and splitting
// ---------------------------------------------------------------------------

/// The first position at or after `i` where `s` holds `c`, or the length of
/// `s` when there is none.
pub open spec fn first_from(s: Seq<char>, c: char, i: int) -> int
    decreases s.len() - i,
{
    if i >= s.len() {
        s.len() as int
    } else if s[i] == c {
        i
    } else {
        first_from(s, c, i + 1)
    }
}

/// `first_from` is a position in `s` at or after `i`, holds `c` if it is not
/// the end, and no position before it does.
pub proof fn lemma_first_from(s: Seq<char>, c: char, i: int)
    requires
        0 <= i <= s.len(),
    ensures
        i <= first_from(s, c, i) <= s.len(),
        first_from(s, c, i) < s.len() ==> s[first_from(s, c, i)] == c,
        forall|k: int| i <= k < first_from(s, c, i) ==> s[k] != c,
    decreases s.len() - i,
{
    if i < s.len() && s[i] != c {
        lemma_first_from(s, c, i + 1);
    }
}

/// A position that holds `c`, with no such position before it, is the first.
pub proof fn lemma_first_from_is(s: Seq<char>, c: char, i: int, j: int)
    requires
        0 <= i <= j <= s.len(),
        forall|k: int| i <= k < j ==> s[k] != c,
        j < s.len() ==> s[j] == c,
    ensures
        first_from(s, c, i) == j,
    decreases j - i,
{
    if i < j {
        lemma_first_from_is(s, c, i + 1, j);
    }
}

/// Finds the first `c` in `cs` at or after `from`.
pub fn find_char(cs: &Vec<char>, c: char, from: usize) -> (r: usize)
    requires
        from <= cs@.len(),
    ensures
        r == first_from(cs@, c, from as int),
        from <= r <= cs@.len(),
        r < cs@.len() ==> cs@[r as int] == c,
{
    let mut i: usize = from;
    while i < cs.len() && cs[i] != c
        invariant
            from <= i <= cs@.len(),
            first_from(cs@, c, from as int) == first_from(cs@, c, i as int),
        decreases cs@.len() - i,
    {
        i = i + 1;
    }
    i
}

/// The pieces of `s` between the occurrences of `sep`.
pub open spec fn split(s: Seq<char>, sep: char) -> Seq<Seq<char>>
    decreases s.len(),
    via split_decreases
{
    let i = first_from(s, sep, 0);
    if i >= s.len() {
        seq![s]
    } else {
        seq![s.take(i)] + split(s.skip(i + 1), sep)
    }
}

#[via_fn]
proof fn split_decreases(s: Seq<char>, sep: char) {
    lemma_first_from(s, sep, 0);
}

/// `first_from` in a suffix is `first_from` in the whole, shifted.
pub proof fn lemma_first_from_skip(s: Seq<char>, c: char, start: int)
    requires
        0 <= start <= s.len(),
    ensures
        first_from(s.skip(start), c, 0) + start == first_from(s, c, start),
{
    let j = first_from(s, c, start);
    lemma_first_from(s, c, start);
    lemma_first_from_is(s.skip(start), c, 0, j - start);
}

/// A text without `sep` is one piece.
pub proof fn lemma_split_whole(s: Seq<char>, sep: char)
    requires
        !s.contains(sep),
    ensures
        split(s, sep) == seq![s],
{
    lemma_first_from(s, sep, 0);
    if first_from(s, sep, 0) < s.len() {
        assert(s.contains(s[first_from(s, sep, 0)]));
    }
}

/// A piece without `sep`, before a `sep`, is split off.
pub proof fn lemma_split_head(head: Seq<char>, sep: char, tail: Seq<char>)
    requires
        !head.contains(sep),
    ensures
        split(head + seq![sep] + tail, sep) == seq![head] + split(tail, sep),
{
    let s = head + seq![sep] + tail;
    assert forall|k: int| 0 <= k < head.len() implies s[k] != sep by {
        assert(s[k] == head[k]);
        assert(head.contains(head[k]));
    }
    lemma_first_from_is(s, sep, 0, head.len() as int);
    assert(s.take(head.len() as int) =~= head);
    assert(s.skip(head.len() as int + 1) =~= tail);
}

/// Splits `cs`, from `from` on, at the occurrences of `sep`.
pub fn split_chars(cs: &Vec<char>, from: usize, sep: char) -> (r: Vec<String>)
    requires
        from <= cs@.len(),
    ensures
        texts(r@) == split(cs@.skip(from as int), sep),
        r@.len() >= 1,
{
    let mut out: Vec<String> = Vec::new();
    let mut start: usize = from;
    proof {
        assert(texts(out@) + split(cs@.skip(start as int), sep) =~= split(
            cs@.skip(from as int),
            sep,
        ));
    }
    loop
        invariant
            from <= start <= cs@.len(),
            texts(out@) + split(cs@.skip(start as int), sep) == split(cs@.skip(from as int), sep),
        decreases cs@.len() - start,
    {
        let end = find_char(cs, sep, start);
        let piece = string_from(cs, start, end);
        let ghost before = out@;
        let ghost rest = cs@.skip(start as int);
        proof {
            lemma_first_from_skip(cs@, sep, start as int);
            assert(rest.take(end - start) =~= piece@);
        }
        out.push(piece);
        proof {
            assert(texts(out@) =~= texts(before).push(piece@));
        }
        if end >= cs.len() {
            proof {
                assert(rest =~= piece@);
                assert(texts(out@) =~= texts(before) + split(rest, sep));
            }
            return out;
        }
        proof {
            assert(rest.skip(end - start + 1) =~= cs@.skip(end + 1));
            assert(split(rest, sep) == seq![piece@] + split(cs@.skip(end + 1), sep));
            assert(texts(before) + (seq![piece@] + split(cs@.skip(end + 1), sep)) =~= texts(out@)
                + split(cs@.skip(end + 1), sep));
        }
        start = end + 1;
    }
}

/// `s` without the occurrences of `c`.
pub open spec fn without(s: Seq<char>, c: char) -> Seq<char> {
    s.filter(|x: char| x != c)
}

/// Copies `cs`, from `from` on, without the occurrences of `c`.
pub fn remove_char(cs: &Vec<char>, from: usize, c: char) -> (r: String)
    requires
        from <= cs@.len(),
    ensures
        r@ == without(cs@.skip(from as int), c),
{
    let mut out = String::new();
    let mut i: usize = from;
    let ghost tail = cs@.skip(from as int);
    proof {
        reveal(Seq::filter);
        assert(tail.take(0) =~= seq![]);
    }
    while i < cs.len()
        invariant
            from <= i <= cs@.len(),
            tail == cs@.skip(from as int),
            out@ == without(tail.take(i - from), c),
        decreases cs@.len() - i,
    {
        proof {
            reveal(Seq::filter);
            assert(tail.take(i - from + 1).drop_last() =~= tail.take(i - from));
        }
        if cs[i] != c {
            out.push(cs[i]);
        }
        i = i + 1;
    }
    proof {
        assert(tail.take(i - from) =~= tail);
    }
    out
}

/// Whether `needle` occurs in `hay` as a run of consecutive characters.
pub open spec fn is_infix(needle: Seq<char>, hay: Seq<char>) -> bool {
    exists|i: int| #[trigger] occurs_at(needle, hay, i)
}

/// Whether `needle` stands in `hay` at position `i`.
pub open spec fn occurs_at(needle: Seq<char>, hay: Seq<char>, i: int) -> bool {
    &&& 0 <= i <= hay.len() - needle.len()
    &&& hay.subrange(i, i + needle.len()) == needle
}

/// Whether `needle` stands in `hay` at position `i`.
fn stands_at(hay: &Vec<char>, needle: &Vec<char>, i: usize) -> (r: bool)
    requires
        i + needle@.len() <= hay@.len(),
    ensures
        r == occurs_at(needle@, hay@, i as int),
{
    let total: usize = hay.len();
    let mut j: usize = 0;
    while j < needle.len()
        invariant
            j <= needle@.len(),
            total == hay@.len(),
            i + needle@.len() <= total,
            forall|k: int| 0 <= k < j ==> hay@[i + k] == needle@[k],
        decreases needle@.len() - j,
    {
        if hay[i + j] != needle[j] {
            proof {
                let w = hay@.subrange(i as int, i + needle@.len());
                assert(w[j as int] != needle@[j as int]);
            }
            return false;
        }
        j = j + 1;
    }
    proof {
        assert(hay@.subrange(i as int, i + needle@.len()) =~= needle@);
    }
    true
}

/// Whether `needle` occurs in `hay`.
pub fn contains_text(hay: &str, needle: &str) -> (r: bool)
    ensures
        r == is_infix(needle@, hay@),
{
    let h = chars_of(hay);
    let n = chars_of(needle);
    if n.len() == 0 {
        proof {
            assert(h@.subrange(0, 0) =~= n@);
            assert(occurs_at(n@, h@, 0));
        }
        return true;
    }
    if n.len() > h.len() {
        return false;
    }
    let count: usize = h.len() - n.len() + 1;
    let mut i: usize = 0;
    while i < count
        invariant
            h@ == hay@,
            n@ == needle@,
            count == h@.len() - n@.len() + 1,
            i <= count,
            forall|k: int| 0 <= k < i ==> !occurs_at(n@, h@, k),
        decreases count - i,
    {
        if stands_at(&h, &n, i) {
            return true;
        }
        i = i + 1;
    }
    false
}

// ---------------------------------------------------------------------------
// White space
// ---------------------------------------------------------------------------

/// The end of the run of characters at `i` that are white space, or that are
/// not, as `white` says.
pub open spec fn run_end(s: Seq<char>, i: int, white: bool) -> int
    decreases s.len() - i,
{
    if 0 <= i < s.len() && is_white_space(s[i]) == white {
        run_end(s, i + 1, white)
    } else {
        i
    }
}

/// Where `s` ends once the white space before `n` is dropped, no further down
/// than `from`.
pub open spec fn trim_end_at(s: Seq<char>, from: int, n: int) -> int
    decreases n - from,
{
    if 0 <= from < n <= s.len() && is_white_space(s[n - 1]) {
        trim_end_at(s, from, n - 1)
    } else {
        n
    }
}

/// `s` without the white space at its two ends.
pub open spec fn trimmed(s: Seq<char>) -> Seq<char> {
    let a = run_end(s, 0, true);
    s.subrange(a, trim_end_at(s, a, s.len() as int))
}

/// The end of the run at `i`, in code.
pub fn scan_run(cs: &Vec<char>, from: usize, white: bool) -> (r: usize)
    requires
        from <= cs@.len(),
    ensures
        r == run_end(cs@, from as int, white),
        from <= r <= cs@.len(),
        r < cs@.len() ==> is_white_space(cs@[r as int]) != white,
{
    let mut i: usize = from;
    while i < cs.len() && cs[i].is_whitespace() == white
        invariant
            from <= i <= cs@.len(),
            run_end(cs@, from as int, white) == run_end(cs@, i as int, white),
        decreases cs@.len() - i,
    {
        i = i + 1;
    }
    i
}

/// The bounds of the text of `cs` between the white space at its ends.
pub fn trim_bounds(cs: &Vec<char>) -> (r: (usize, usize))
    ensures
        r.0 <= r.1 <= cs@.len(),
        trimmed(cs@) == cs@.subrange(r.0 as int, r.1 as int),
{
    let a = scan_run(cs, 0, true);
    let mut n: usize = cs.len();
    while n > a && cs[n - 1].is_whitespace()
        invariant
            a <= n <= cs@.len(),
            trim_end_at(cs@, a as int, cs@.len() as int) == trim_end_at(cs@, a as int, n as int),
        decreases n,
    {
        n = n - 1;
    }
    (a, n)
}

/// `s` without the white space at its two ends.
pub fn trim(s: &str) -> (r: String)
    ensures
        r@ == trimmed(s@),
{
    let cs = chars_of(s);
    let b = trim_bounds(&cs);
    string_from(&cs, b.0, b.1)
}

proof fn lemma_trim_ends(s: Seq<char>, from: int, n: int)
    requires
        0 <= from <= n <= s.len(),
    ensures
        from <= trim_end_at(s, from, n) <= n,
        trim_end_at(s, from, n) > from ==> !is_white_space(s[trim_end_at(s, from, n) - 1]),
    decreases n - from,
{
    if from < n && is_white_space(s[n - 1]) {
        lemma_trim_ends(s, from, n - 1);
    }
}

proof fn lemma_run_end(s: Seq<char>, i: int)
    requires
        0 <= i <= s.len(),
    ensures
        i <= run_end(s, i, true) <= s.len(),
        run_end(s, i, true) < s.len() ==> !is_white_space(s[run_end(s, i, true)]),
    decreases s.len() - i,
{
    if i < s.len() && is_white_space(s[i]) {
        lemma_run_end(s, i + 1);
    }
}

/// A text in which neither end is white space is trimmed already.
pub proof fn lemma_trimmed_already(s: Seq<char>)
    requires
        s.len() > 0 ==> !is_white_space(s[0]) && !is_white_space(s.last()),
    ensures
        trimmed(s) == s,
{
    assert(trimmed(s) =~= s);
}

/// What trimming leaves has no white space at either end.
pub proof fn lemma_trimmed_ends(s: Seq<char>)
    ensures
        trimmed(s).len() > 0 ==> !is_white_space(trimmed(s)[0]) && !is_white_space(
            trimmed(s).last(),
        ),
{
    let a = run_end(s, 0, true);
    lemma_run_end(s, 0);
    lemma_trim_ends(s, a, s.len() as int);
}

/// Trimming a text and writing it in lowercase is done once and for all: doing
/// both again changes nothing. Stated of texts that are ASCII once trimmed.
pub proof fn law_normal_form_is_stable(s: Seq<char>)
    requires
        is_ascii_chars(trimmed(s)),
    ensures
        lowercase(trimmed(lowercase(trimmed(s)))) == lowercase(trimmed(s)),
{
    let t = trimmed(s);
    let low = lowercase(t);
    lemma_trimmed_ends(s);
    assert forall|i: int| 0 <= i < t.len() implies '\0' <= #[trigger] low[i] <= '\u{7f}'
        && ascii_lower(low[i]) == low[i] && is_white_space(low[i]) == is_white_space(t[i]) by {
        assert('\0' <= t[i] <= '\u{7f}');
        assert(low[i] == ascii_lower(t[i]));
    }
    lemma_trimmed_already(low);
    assert(lowercase(low) =~= low);
}

/// The second of the words that white space separates in `s`.
pub open spec fn second_word(s: Seq<char>) -> Option<Seq<char>> {
    let first_end = run_end(s, run_end(s, 0, true), false);
    let start = run_end(s, first_end, true);
    if start >= s.len() {
        None
    } else {
        Some(s.subrange(start, run_end(s, start, false)))
    }
}

/// Reads the second word of `s`.
pub fn nth_word_1(s: &str) -> (r: Option<String>)
    ensures
        opt_text(r) == second_word(s@),
{
    let cs = chars_of(s);
    let first = scan_run(&cs, 0, true);
    let first_end = scan_run(&cs, first, false);
    let start = scan_run(&cs, first_end, true);
    if start >= cs.len() {
        return None;
    }
    let end = scan_run(&cs, start, false);
    Some(string_from(&cs, start, end))
}

/// `s` without the run of `c` at its end.
pub open spec fn strip_end(s: Seq<char>, c: char) -> Seq<char>
    decreases s.len(),
{
    if s.len() > 0 && s.last() == c {
        strip_end(s.drop_last(), c)
    } else {
        s
    }
}

/// Drops the run of `c` at the end of `s`.
pub fn trim_end_char(s: &str, c: char) -> (r: String)
    ensures
        r@ == strip_end(s@, c),
{
    let cs = chars_of(s);
    let mut n: usize = cs.len();
    proof {
        assert(cs@.take(n as int) =~= cs@);
    }
    while n > 0 && cs[n - 1] == c
        invariant
            n <= cs@.len(),
            strip_end(cs@, c) == strip_end(cs@.take(n as int), c),
        decreases n,
    {
        proof {
            assert(cs@.take(n as int).drop_last() =~= cs@.take(n - 1));
        }
        n = n - 1;
    }
    proof {
        assert(cs@.subrange(0, n as int) =~= cs@.take(n as int));
    }
    string_from(&cs, 0, n)
}

// ---------------------------------------------------------------------------
// Numbers
// ---------------------------------------------------------------------------

/// The decimal digit for `d`.
pub open spec fn digit_char(d: nat) -> char {
    ('0' as u32 + d) as char
}

/// `n` written in decimal.
pub open spec fn decimal(n: nat) -> Seq<char>
    decreases n,
{
    if n < 10 {
        seq![digit_char(n)]
    } else {
        decimal(n / 10).push(digit_char(n % 10))
    }
}

/// Writes `n` in decimal.
pub fn decimal_text(n: u64) -> (r: String)
    ensures
        r@ == decimal(n as nat),
    decreases n,
{
    let d: u8 = (n % 10) as u8;
    let c: char = (48u8 + d) as char;
    let mut out = if n < 10 {
        String::new()
    } else {
        decimal_text(n / 10)
    };
    out.push(c);
    proof {
        assert(seq![c] =~= Seq::<char>::empty().push(c));
    }
    out
}

/// Whether `c` is a decimal digit.
pub open spec fn is_digit(c: char) -> bool {
    '0' <= c <= '9'
}

/// The number that a decimal digit stands for.
pub open spec fn digit_value(c: char) -> nat {
    (c as u32 - '0' as u32) as nat
}

/// The number that a run of decimal digits stands for.
pub open spec fn digits_value(s: Seq<char>) -> nat
    decreases s.len(),
{
    if s.len() == 0 {
        0
    } else {
        digits_value(s.drop_last()) * 10 + digit_value(s.last())
    }
}

/// Whether `s` is made of decimal digits.
pub open spec fn all_digits(s: Seq<char>) -> bool {
    forall|i: int| 0 <= i < s.len() ==> is_digit(#[trigger] s[i])
}

/// The number that `s` writes, where it is a non-empty run of decimal digits
/// and the number is at most `max`.
pub open spec fn unsigned(s: Seq<char>, max: nat) -> Option<nat> {
    if s.len() > 0 && all_digits(s) && digits_value(s) <= max {
        Some(digits_value(s))
    } else {
        None
    }
}

/// More digits never make the number smaller.
proof fn lemma_digits_grow(s: Seq<char>, i: int, j: int)
    requires
        0 <= i <= j <= s.len(),
    ensures
        digits_value(s.take(i)) <= digits_value(s.take(j)),
    decreases j - i,
{
    if i < j {
        lemma_digits_grow(s, i, j - 1);
        assert(s.take(j).drop_last() =~= s.take(j - 1));
    }
}

/// Reads `cs[from..to]` as a decimal number of at most `max`.
pub fn read_unsigned(cs: &Vec<char>, from: usize, to: usize, max: u64) -> (r: Option<u64>)
    requires
        from <= to <= cs@.len(),
    ensures
        match r {
            Some(n) => unsigned(cs@.subrange(from as int, to as int), max as nat) == Some(n as nat),
            None => unsigned(cs@.subrange(from as int, to as int), max as nat) is None,
        },
{
    let ghost s = cs@.subrange(from as int, to as int);
    if from == to {
        return None;
    }
    let mut acc: u64 = 0;
    let mut i: usize = from;
    while i < to
        invariant
            from <= i <= to <= cs@.len(),
            s == cs@.subrange(from as int, to as int),
            acc == digits_value(s.take(i - from)),
            acc <= max,
            all_digits(s.take(i - from)),
        decreases to - i,
    {
        let c = cs[i];
        if !(c >= '0' && c <= '9') {
            proof {
                assert(s[i - from] == c);
            }
            return None;
        }
        let d: u64 = (c as u32 - '0' as u32) as u64;
        proof {
            assert(s.take(i - from + 1).drop_last() =~= s.take(i - from));
            assert(s.take(s.len() as int) =~= s);
            lemma_digits_grow(s, i - from + 1, s.len() as int);
        }
        if acc > u64::MAX / 10 || acc * 10 > u64::MAX - d || acc * 10 + d > max {
            return None;
        }
        acc = acc * 10 + d;
        i = i + 1;
    }
    proof {
        assert(s.take(s.len() as int) =~= s);
    }
    Some(acc)
}

// ---------------------------------------------------------------------------
// Laws
// ---------------------------------------------------------------------------

/// `hay` is `needle` with something, or nothing, on either side.
pub open spec fn holds_within(hay: Seq<char>, needle: Seq<char>) -> bool {
    exists|before: Seq<char>, after: Seq<char>| hay == #[trigger] (before + needle + after)
}

/// One text occurs in another exactly where the other is that text with
/// something on either side.
pub proof fn law_infix_is_within(needle: Seq<char>, hay: Seq<char>)
    ensures
        is_infix(needle, hay) <==> holds_within(hay, needle),
{
    if is_infix(needle, hay) {
        let i = choose|i: int| #[trigger] occurs_at(needle, hay, i);
        let before = hay.take(i);
        let after = hay.skip(i + needle.len());
        assert(hay =~= before + needle + after) by {
            assert forall|k: int| 0 <= k < needle.len() implies hay[i + k] == needle[k] by {
                assert(hay.subrange(i, i + needle.len())[k] == needle[k]);
            }
            assert forall|k: int| 0 <= k < hay.len() implies hay[k] == (before + needle
                + after)[k] by {
                if i <= k < i + needle.len() {
                    assert(hay[i + (k - i)] == needle[k - i]);
                }
            }
        }
    }
    if holds_within(hay, needle) {
        let (before, after) = choose|before: Seq<char>, after: Seq<char>|
            hay == #[trigger] (before + needle + after);
        let i = before.len() as int;
        assert(hay.subrange(i, i + needle.len()) =~= needle);
        assert(occurs_at(needle, hay, i));
    }
}

/// All of `s` is white space, or none of it is, as `white` says.
pub open spec fn all_white(s: Seq<char>, white: bool) -> bool {
    forall|i: int| 0 <= i < s.len() ==> is_white_space(#[trigger] s[i]) == white
}

proof fn lemma_run(s: Seq<char>, i: int, white: bool)
    requires
        0 <= i <= s.len(),
    ensures
        i <= run_end(s, i, white) <= s.len(),
        forall|k: int|
            i <= k < run_end(s, i, white) ==> is_white_space(#[trigger] s[k]) == white,
        run_end(s, i, white) < s.len() ==> is_white_space(s[run_end(s, i, white)]) != white,
    decreases s.len() - i,
{
    if i < s.len() && is_white_space(s[i]) == white {
        lemma_run(s, i + 1, white);
    }
}

proof fn lemma_run_is(s: Seq<char>, i: int, j: int, white: bool)
    requires
        0 <= i <= j <= s.len(),
        forall|k: int| i <= k < j ==> is_white_space(#[trigger] s[k]) == white,
        j < s.len() ==> is_white_space(s[j]) != white,
    ensures
        run_end(s, i, white) == j,
    decreases j - i,
{
    if i < j {
        lemma_run_is(s, i + 1, j, white);
    }
}

proof fn lemma_trimmed_tail(s: Seq<char>, from: int, n: int)
    requires
        0 <= from <= n <= s.len(),
    ensures
        from <= trim_end_at(s, from, n) <= n,
        forall|k: int| trim_end_at(s, from, n) <= k < n ==> is_white_space(#[trigger] s[k]),
    decreases n - from,
{
    if from < n && is_white_space(s[n - 1]) {
        lemma_trimmed_tail(s, from, n - 1);
    }
}

/// Trimming takes white space off the two ends and nothing else: a text is what
/// trimming leaves of it, with white space on either side.
pub proof fn law_trimmed_is_the_middle(s: Seq<char>)
    ensures
        exists|before: Seq<char>, after: Seq<char>|
            s == #[trigger] (before + trimmed(s) + after) && all_white(before, true) && all_white(
                after,
                true,
            ),
        trimmed(s).len() > 0 ==> !is_white_space(trimmed(s)[0]) && !is_white_space(
            trimmed(s).last(),
        ),
{
    lemma_trimmed_ends(s);
    let a = run_end(s, 0, true);
    lemma_run(s, 0, true);
    let b = trim_end_at(s, a, s.len() as int);
    lemma_trimmed_tail(s, a, s.len() as int);
    let before = s.take(a);
    let after = s.skip(b);
    assert(s =~= before + trimmed(s) + after);
    assert forall|i: int| 0 <= i < after.len() implies is_white_space(#[trigger] after[i]) by {
        assert(after[i] == s[b + i]);
    }
    assert(all_white(before, true) && all_white(after, true));
}

/// A text in lowercase has each of the letters `A` to `Z` 32 places on and all
/// else in place, where it is ASCII; a text beyond ASCII is as
/// `str::to_lowercase` has it.
pub proof fn law_lowercase_letter_by_letter(s: Seq<char>)
    ensures
        is_ascii_chars(s) ==> lowercase(s).len() == s.len() && forall|i: int|
            0 <= i < s.len() ==> {
                &&& 'A' <= s[i] <= 'Z' ==> #[trigger] lowercase(s)[i] as int == s[i] as int + 32
                &&& !('A' <= s[i] <= 'Z') ==> lowercase(s)[i] == s[i]
            },
        !is_ascii_chars(s) ==> lowercase(s) == unicode_lowercase(s),
{
}

/// The second of two words is found, whatever white space stands before, between
/// and behind them; where there is at most one word, there is none.
pub proof fn law_second_word_is_found(
    lead: Seq<char>,
    first: Seq<char>,
    gap: Seq<char>,
    second: Seq<char>,
    rest: Seq<char>,
)
    requires
        all_white(lead, true),
        all_white(first, false),
        all_white(gap, true),
        all_white(second, false),
        first.len() > 0,
    ensures
        gap.len() > 0 && second.len() > 0 && (rest.len() > 0 ==> is_white_space(rest[0]))
            ==> second_word(lead + first + gap + second + rest) == Some(second),
        second_word(lead + first + gap) is None,
        second_word(lead) is None,
{
    let a = lead.len() as int;
    let b = a + first.len();
    let c = b + gap.len();
    let d = c + second.len();
    let one = lead + first + gap;
    assert forall|k: int| 0 <= k < a implies is_white_space(#[trigger] one[k]) by {
        assert(one[k] == lead[k]);
    }
    assert forall|k: int| a <= k < b implies !is_white_space(#[trigger] one[k]) by {
        assert(one[k] == first[k - a]);
    }
    assert forall|k: int| b <= k < c implies is_white_space(#[trigger] one[k]) by {
        assert(one[k] == gap[k - b]);
    }
    lemma_run_is(one, 0, a, true);
    lemma_run_is(one, a, b, false);
    lemma_run_is(one, b, c, true);
    lemma_run_is(lead, 0, a, true);
    lemma_run_is(lead, a, a, false);
    lemma_run_is(lead, a, a, true);
    if gap.len() > 0 && second.len() > 0 && (rest.len() > 0 ==> is_white_space(rest[0])) {
        let s = lead + first + gap + second + rest;
        assert forall|k: int| 0 <= k < c implies #[trigger] s[k] == one[k] by {}
        assert forall|k: int| c <= k < d implies !is_white_space(#[trigger] s[k]) by {
            assert(s[k] == second[k - c]);
        }
        lemma_run_is(s, 0, a, true);
        lemma_run_is(s, a, b, false);
        lemma_run_is(s, b, c, true);
        if rest.len() > 0 {
            assert(s[d] == rest[0]);
        }
        lemma_run_is(s, c, d, false);
        assert(s.subrange(c, d) =~= second);
    }
}

/// Stripping takes a run of the one character off the end and nothing else.
pub proof fn law_strip_end_is_the_front(s: Seq<char>, c: char)
    ensures
        strip_end(s, c).len() <= s.len(),
        s == strip_end(s, c) + Seq::new((s.len() - strip_end(s, c).len()) as nat, |i: int| c),
        strip_end(s, c).len() > 0 ==> strip_end(s, c).last() != c,
    decreases s.len(),
{
    let run = Seq::new((s.len() - strip_end(s, c).len()) as nat, |i: int| c);
    if s.len() > 0 && s.last() == c {
        let t = s.drop_last();
        law_strip_end_is_the_front(t, c);
        let shorter = Seq::new((t.len() - strip_end(t, c).len()) as nat, |i: int| c);
        assert(run =~= shorter.push(c));
        assert(s =~= t.push(c));
        assert(s =~= strip_end(s, c) + run);
    } else {
        assert(s =~= strip_end(s, c) + run);
    }
}

/// Dropping a character keeps all others, in their order.
pub proof fn law_without_drops_one_character(s: Seq<char>, t: Seq<char>, c: char)
    ensures
        without(s + t, c) == without(s, c) + without(t, c),
        !s.contains(c) ==> without(s, c) == s,
        without(seq![c], c) == Seq::<char>::empty(),
{
    Seq::filter_distributes_over_add(s, t, |x: char| x != c);
    reveal(Seq::filter);
    let one = seq![c];
    assert(one.drop_last() =~= seq![]);
    lemma_without_none(one.drop_last(), c);
    assert(without(one, c) =~= without(one.drop_last(), c));
    if !s.contains(c) {
        lemma_without_none(s, c);
    }
}

proof fn lemma_without_none(s: Seq<char>, c: char)
    requires
        !s.contains(c),
    ensures
        without(s, c) == s,
    decreases s.len(),
{
    reveal(Seq::filter);
    if s.len() > 0 {
        let t = s.drop_last();
        assert forall|i: int| 0 <= i < t.len() implies t[i] != c by {
            assert(s.contains(s[i]));
        }
        lemma_without_none(t, c);
        assert(s.contains(s.last()));
        assert(s =~= t.push(s.last()));
    } else {
        assert(without(s, c) =~= s);
    }
}

/// The number of a run of digits, digit by digit from the left.
pub proof fn law_digits_count_tenfold(s: Seq<char>, c: char)
    requires
        '0' <= c <= '9',
    ensures
        digits_value(seq![]) == 0,
        digits_value(s.push(c)) == 10 * digits_value(s) + (c as int - 48),
{
    assert(s.push(c).drop_last() =~= s);
}

/// A number is read from a run of digits alone, without sign or space, and only
/// where it is not too large.
pub proof fn law_unsigned_reads_digits(s: Seq<char>, max: nat)
    ensures
        unsigned(s, max) is Some <==> s.len() > 0 && (forall|i: int|
            0 <= i < s.len() ==> '0' <= #[trigger] s[i] <= '9') && digits_value(s) <= max,
        unsigned(s, max) matches Some(n) ==> n == digits_value(s),
{
    if forall|i: int| 0 <= i < s.len() ==> '0' <= #[trigger] s[i] <= '9' {
        assert(all_digits(s));
    }
    if all_digits(s) {
        assert forall|i: int| 0 <= i < s.len() implies '0' <= #[trigger] s[i] <= '9' by {
            assert(is_digit(s[i]));
        }
    }
}

/// A number written in decimal reads back as itself, in digits alone and
/// without a leading zero.
pub proof fn law_decimal_reads_back(n: nat)
    ensures
        unsigned(decimal(n), n) == Some(n),
        decimal(n)[0] == '0' ==> n == 0 && decimal(n).len() == 1,
    decreases n,
{
    let d = n % 10;
    let c = digit_char(d);
    assert('0' <= c <= '9' && c as int == 48 + d);
    if n < 10 {
        assert(decimal(n) =~= Seq::<char>::empty().push(c));
        law_digits_count_tenfold(seq![], c);
        assert(all_digits(decimal(n)));
    } else {
        law_decimal_reads_back(n / 10);
        law_digits_count_tenfold(decimal(n / 10), c);
        assert(all_digits(decimal(n)));
        assert(decimal(n)[0] == decimal(n / 10)[0]);
    }
}

/// A text that is split has at least one piece, and just one where it holds no
/// separator; else its first piece ends at its first separator.
pub proof fn law_split_at_the_first(s: Seq<char>, sep: char)
    ensures
        split(s, sep).len() >= 1,
        split(s, sep).len() == 1 <==> !s.contains(sep),
        split(s, sep).len() == 1 ==> split(s, sep) == seq![s],
        s.contains(sep) ==> exists|head: Seq<char>, tail: Seq<char>|
            s == #[trigger] (head + seq![sep] + tail) && !head.contains(sep) && split(s, sep)
                == seq![head] + split(tail, sep),
    decreases s.len(),
{
    lemma_first_from(s, sep, 0);
    let i = first_from(s, sep, 0);
    if i < s.len() {
        let head = s.take(i);
        let tail = s.skip(i + 1);
        law_split_at_the_first(tail, sep);
        assert(s =~= head + seq![sep] + tail);
        assert(s[i] == sep);
        assert(split(s, sep) == seq![head] + split(tail, sep));
    } else {
        assert forall|k: int| 0 <= k < s.len() implies s[k] != sep by {}
    }
}

/// Texts are seen one by one, each as its own characters.
pub proof fn law_texts_are_their_characters(v: Seq<String>, s: String, t: &str, i: int)
    ensures
        texts(v).len() == v.len(),
        0 <= i < v.len() ==> texts(v)[i] == v[i]@,
        opt_text(Some(s)) == Some(s@),
        opt_text(None) is None,
        opt_str(Some(t)) == Some(t@),
        opt_str(None) is None,
{
}

} // verus!
