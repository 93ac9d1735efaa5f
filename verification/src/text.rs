//! The small grammars that the library reads: lists of words, `name:value`
//! pairs, fields parted by a separator, and decimal indices.

use vstd::prelude::*;
use vstd::string::*;

verus! {

/// `String::push` of std appends the given character to the end of the string.
pub assume_specification[ String::push ](s: &mut String, ch: char)
    ensures
        final(s)@ == old(s)@.push(ch),
;

/// White space parts words: the characters that Unicode lists as `White_Space`.
pub open spec fn is_space(c: char) -> bool {
    let u = c as u32;
    ||| 0x09 <= u <= 0x0D
    ||| u == 0x20
    ||| u == 0x85
    ||| u == 0xA0
    ||| u == 0x1680
    ||| 0x2000 <= u <= 0x200A
    ||| u == 0x2028
    ||| u == 0x2029
    ||| u == 0x202F
    ||| u == 0x205F
    ||| u == 0x3000
}

/// Commas and double quotes are dropped from a list before it is split.
pub open spec fn is_dropped(c: char) -> bool {
    c == ',' || c == '"'
}

/// What a scan of `s` from the left has gathered: the words that are closed,
/// and the word that is still open.
pub open spec fn scan(s: Seq<char>) -> (Seq<Seq<char>>, Seq<char>)
    decreases s.len(),
{
    if s.len() == 0 {
        (Seq::empty(), Seq::empty())
    } else {
        let (closed, open) = scan(s.drop_last());
        let c = s.last();
        if is_dropped(c) {
            (closed, open)
        } else if is_space(c) {
            if open.len() > 0 {
                (closed.push(open), Seq::empty())
            } else {
                (closed, open)
            }
        } else {
            (closed, open.push(c))
        }
    }
}

/// The words of a list: commas and double quotes are dropped, and what is left
/// is split at white space; no word is empty.
pub open spec fn words(s: Seq<char>) -> Seq<Seq<char>> {
    let (closed, open) = scan(s);
    if open.len() > 0 {
        closed.push(open)
    } else {
        closed
    }
}

/// A text that holds no white space, no comma and no double quote.
pub open spec fn is_clean(w: Seq<char>) -> bool {
    forall|i: int| 0 <= i < w.len() ==> !is_space(#[trigger] w[i]) && !is_dropped(w[i])
}

/// A word is not empty, and holds no white space, no comma and no double quote.
pub open spec fn is_word(w: Seq<char>) -> bool {
    w.len() > 0 && is_clean(w)
}

proof fn lemma_scan_words(s: Seq<char>)
    ensures
        forall|k: int| 0 <= k < scan(s).0.len() ==> is_word(#[trigger] scan(s).0[k]),
        is_clean(scan(s).1),
    decreases s.len(),
{
    if s.len() > 0 {
        let before = scan(s.drop_last());
        let c = s.last();
        lemma_scan_words(s.drop_last());
        if is_dropped(c) {
        } else if is_space(c) {
            if before.1.len() > 0 {
                assert forall|k: int| 0 <= k < scan(s).0.len() implies is_word(
                    #[trigger] scan(s).0[k],
                ) by {
                    if k < before.0.len() {
                        assert(scan(s).0[k] == before.0[k]);
                    } else {
                        assert(scan(s).0[k] == before.1);
                    }
                }
            }
        } else {
            assert forall|i: int| 0 <= i < scan(s).1.len() implies !is_space(
                #[trigger] scan(s).1[i],
            ) && !is_dropped(scan(s).1[i]) by {
                if i < before.1.len() {
                    assert(scan(s).1[i] == before.1[i]);
                }
            }
        }
    }
}

/// Every word of a list is a word: not empty, and free of white space, commas
/// and double quotes.
pub proof fn lemma_words_are_words(s: Seq<char>)
    ensures
        forall|k: int| 0 <= k < words(s).len() ==> is_word(#[trigger] words(s)[k]),
{
    lemma_scan_words(s);
    let (closed, open) = scan(s);
    assert forall|k: int| 0 <= k < words(s).len() implies is_word(#[trigger] words(s)[k]) by {
        if k < closed.len() {
            assert(words(s)[k] == closed[k]);
        } else {
            assert(words(s)[k] == open);
        }
    }
}

/// The texts put together, one after the other.
pub open spec fn glued(parts: Seq<Seq<char>>) -> Seq<char>
    decreases parts.len(),
{
    if parts.len() == 0 {
        Seq::empty()
    } else {
        glued(parts.drop_last()) + parts.last()
    }
}

proof fn lemma_scan_keeps(s: Seq<char>)
    ensures
        glued(scan(s).0) + scan(s).1 == s.filter(|c: char| !is_space(c) && !is_dropped(c)),
    decreases s.len(),
{
    let keep = |c: char| !is_space(c) && !is_dropped(c);
    reveal(Seq::filter);
    if s.len() == 0 {
        assert(glued(scan(s).0) + scan(s).1 =~= s.filter(keep));
    } else {
        let before = scan(s.drop_last());
        lemma_scan_keeps(s.drop_last());
        if !keep(s.last()) {
            if is_space(s.last()) && !is_dropped(s.last()) && before.1.len() > 0 {
                assert(scan(s).0.drop_last() =~= before.0);
            }
            assert(glued(scan(s).0) + scan(s).1 =~= s.filter(keep));
        } else {
            assert(glued(scan(s).0) + scan(s).1 =~= s.filter(keep));
        }
    }
}

/// The words of a list, put together, are the list without its white space,
/// its commas and its double quotes: splitting loses no other character and
/// changes no order.
pub proof fn lemma_words_keep_the_text(s: Seq<char>)
    ensures
        glued(words(s)) == s.filter(|c: char| !is_space(c) && !is_dropped(c)),
{
    lemma_scan_keeps(s);
    let (closed, open) = scan(s);
    if open.len() > 0 {
        assert(words(s).drop_last() =~= closed);
    } else {
        assert(glued(closed) + open =~= glued(closed));
    }
}

/// Tells whether `c` is white space.
pub fn is_space_char(c: char) -> (r: bool)
    ensures
        r == is_space(c),
{
    let u: u32 = c as u32;
    (0x09 <= u && u <= 0x0D) || u == 0x20 || u == 0x85 || u == 0xA0 || u == 0x1680 || (0x2000 <= u
        && u <= 0x200A) || u == 0x2028 || u == 0x2029 || u == 0x202F || u == 0x205F || u == 0x3000
}

/// The characters of a text, in order.
pub fn chars_of(text: &str) -> (r: Vec<char>)
    ensures
        r@ == text@,
{
    let mut out: Vec<char> = Vec::new();
    for c in it: text.chars()
        invariant
            it.seq() == text@,
            out@ == it.seq().take(it.index() as int),
    {
        out.push(c);
        assert(it.seq().take(it.index() + 1) =~= it.seq().take(it.index() as int).push(c));
    }
    assert(text@.take(text@.len() as int) =~= text@);
    out
}

/// Splits a list into its words.
pub fn split_words(text: &str) -> (r: Vec<String>)
    ensures
        r.deep_view() == words(text@),
{
    let chars = chars_of(text);
    let mut closed: Vec<String> = Vec::new();
    let mut open = String::new();
    let mut open_len: usize = 0;
    let n: usize = chars.len();
    let mut i: usize = 0;
    while i < n
        invariant
            n == chars.len(),
            i <= n,
            closed.deep_view() == scan(chars@.take(i as int)).0,
            open@ == scan(chars@.take(i as int)).1,
            open_len == open@.len(),
            open_len <= i,
        decreases n - i,
    {
        let c = chars[i];
        proof {
            assert(chars@.take(i + 1).drop_last() =~= chars@.take(i as int));
            assert(chars@.take(i + 1).last() == c);
        }
        if c == ',' || c == '"' {
        } else if is_space_char(c) {
            if open_len > 0 {
                let ghost before = closed.deep_view();
                closed.push(open);
                assert(closed.deep_view() =~= before.push(open@));
                open = String::new();
                open_len = 0;
            }
        } else {
            open.push(c);
            open_len = open_len + 1;
        }
        i = i + 1;
    }
    assert(chars@.take(n as int) =~= chars@);
    if open_len > 0 {
        let ghost before = closed.deep_view();
        closed.push(open);
        assert(closed.deep_view() =~= before.push(open@));
    }
    closed
}

/// The fields of `s`: what stands before, between and after its separators.
/// A text with `n` separators has `n + 1` fields, and a field may be empty.
pub open spec fn fields(s: Seq<char>, sep: char) -> Seq<Seq<char>>
    decreases s.len(),
{
    if s.len() == 0 {
        seq![Seq::empty()]
    } else {
        let before = fields(s.drop_last(), sep);
        if s.last() == sep {
            before.push(Seq::empty())
        } else {
            before.drop_last().push(before.last().push(s.last()))
        }
    }
}

/// The fields put together again, with the separator between them.
pub open spec fn joined(parts: Seq<Seq<char>>, sep: char) -> Seq<char>
    decreases parts.len(),
{
    if parts.len() == 0 {
        Seq::empty()
    } else if parts.len() == 1 {
        parts[0]
    } else {
        joined(parts.drop_last(), sep).push(sep) + parts.last()
    }
}

/// A text has at least one field, no field holds the separator, and the
/// fields joined by the separator are the text again.
pub proof fn lemma_fields(s: Seq<char>, sep: char)
    ensures
        fields(s, sep).len() >= 1,
        forall|k: int| 0 <= k < fields(s, sep).len() ==> !(#[trigger] fields(s, sep)[k]).contains(sep),
        joined(fields(s, sep), sep) == s,
    decreases s.len(),
{
    if s.len() == 0 {
        assert(joined(fields(s, sep), sep) =~= s);
    } else {
        let rest = s.drop_last();
        let before = fields(rest, sep);
        let now = fields(s, sep);
        let c = s.last();
        lemma_fields(rest, sep);
        if c == sep {
            assert(now.drop_last() =~= before);
            assert(joined(now, sep) =~= s);
            assert forall|k: int| 0 <= k < now.len() implies !(#[trigger] now[k]).contains(sep) by {
                if k < before.len() {
                    assert(now[k] == before[k]);
                }
            }
        } else {
            let grown = before.last().push(c);
            assert forall|k: int| 0 <= k < now.len() implies !(#[trigger] now[k]).contains(sep) by {
                if k < before.len() - 1 {
                    assert(now[k] == before[k]);
                } else {
                    assert(now[k] == grown);
                    assert forall|i: int| 0 <= i < grown.len() implies grown[i] != sep by {
                        if i < before.last().len() {
                            assert(before.last().contains(grown[i]));
                        }
                    }
                }
            }
            if before.len() == 1 {
                assert(before[0] == rest);
                assert(now[0] =~= s);
            } else {
                assert(now.drop_last() =~= before.drop_last());
                assert(joined(before, sep) == joined(before.drop_last(), sep).push(sep)
                    + before.last());
                assert(joined(now, sep) =~= joined(before, sep).push(c));
                assert(rest.push(c) =~= s);
            }
        }
    }
}

/// Splits a text at every `sep`.
pub fn split_fields(text: &str, sep: char) -> (r: Vec<String>)
    ensures
        r.deep_view() == fields(text@, sep),
{
    let chars = chars_of(text);
    let mut closed: Vec<String> = Vec::new();
    let mut open = String::new();
    let n: usize = chars.len();
    let mut i: usize = 0;
    while i < n
        invariant
            n == chars.len(),
            i <= n,
            closed.deep_view().push(open@) == fields(chars@.take(i as int), sep),
        decreases n - i,
    {
        let c = chars[i];
        let ghost before = fields(chars@.take(i as int), sep);
        proof {
            assert(chars@.take(i + 1).drop_last() =~= chars@.take(i as int));
            assert(chars@.take(i + 1).last() == c);
            assert(before.last() == open@);
            assert(before.drop_last() =~= closed.deep_view());
        }
        if c == sep {
            let ghost was = closed.deep_view();
            closed.push(open);
            assert(closed.deep_view() =~= was.push(open@));
            open = String::new();
        } else {
            open.push(c);
        }
        i = i + 1;
    }
    assert(chars@.take(n as int) =~= chars@);
    let ghost was = closed.deep_view();
    closed.push(open);
    assert(closed.deep_view() =~= was.push(open@));
    closed
}

/// The two sides of a pair `name:value`: a text with exactly one colon. A
/// text with no colon, or with more than one, is no pair.
pub open spec fn pair_of(w: Seq<char>) -> Option<(Seq<char>, Seq<char>)> {
    let parts = fields(w, ':');
    if parts.len() == 2 {
        Some((parts[0], parts[1]))
    } else {
        None
    }
}

/// The two sides of a pair hold no colon, and the pair is its name, a colon
/// and its value.
pub proof fn lemma_pair_of(w: Seq<char>)
    ensures
        match pair_of(w) {
            Some((name, value)) => {
                &&& w == name.push(':') + value
                &&& !name.contains(':')
                &&& !value.contains(':')
            },
            None => true,
        },
{
    lemma_fields(w, ':');
    let parts = fields(w, ':');
    if parts.len() == 2 {
        assert(parts.drop_last().len() == 1);
        assert(joined(parts.drop_last(), ':') == parts[0]);
    }
}

/// Splits a pair `name:value` into its name and its value.
pub fn split_pair(word: &str) -> (r: Option<(String, String)>)
    ensures
        match r {
            Some((name, value)) => pair_of(word@) == Some((name@, value@)),
            None => pair_of(word@) is None,
        },
{
    let mut parts = split_fields(word, ':');
    if parts.len() != 2 {
        return None;
    }
    let value = parts.pop().unwrap();
    let name = parts.pop().unwrap();
    Some((name, value))
}

/// A decimal digit.
pub open spec fn is_digit(c: char) -> bool {
    48 <= (c as u32) <= 57
}

/// A decimal numeral: one digit or more, and nothing else.
pub open spec fn is_decimal(s: Seq<char>) -> bool {
    s.len() > 0 && forall|i: int| 0 <= i < s.len() ==> is_digit(#[trigger] s[i])
}

/// The number that a run of digits writes.
pub open spec fn decimal_value(s: Seq<char>) -> nat
    decreases s.len(),
{
    if s.len() == 0 {
        0
    } else {
        decimal_value(s.drop_last()) * 10 + ((s.last() as u32) - 48) as nat
    }
}

/// A run of digits writes no smaller number than any of its beginnings.
pub proof fn lemma_decimal_prefix(s: Seq<char>, i: int)
    requires
        0 <= i <= s.len(),
        forall|k: int| 0 <= k < s.len() ==> is_digit(#[trigger] s[k]),
    ensures
        decimal_value(s.take(i)) <= decimal_value(s),
    decreases s.len() - i,
{
    if i == s.len() {
        assert(s.take(i) =~= s);
    } else {
        lemma_decimal_prefix(s, i + 1);
        assert(s.take(i + 1).drop_last() =~= s.take(i));
        assert(is_digit(s[i]));
    }
}

/// Reads a decimal numeral that fits 32 bits.
pub fn parse_decimal(text: &str) -> (r: Option<u32>)
    ensures
        r is Some <==> is_decimal(text@) && decimal_value(text@) <= u32::MAX,
        r matches Some(v) ==> v == decimal_value(text@),
{
    let chars = chars_of(text);
    let n: usize = chars.len();
    if n == 0 {
        return None;
    }
    let mut value: u32 = 0;
    let mut i: usize = 0;
    while i < n
        invariant
            n == chars.len(),
            chars@ == text@,
            i <= n,
            forall|k: int| 0 <= k < i ==> is_digit(#[trigger] chars@[k]),
            value == decimal_value(chars@.take(i as int)),
        decreases n - i,
    {
        let u: u32 = chars[i] as u32;
        if u < 48 || u > 57 {
            assert(!is_digit(text@[i as int]));
            return None;
        }
        let d: u32 = u - 48;
        proof {
            assert(chars@.take(i + 1).drop_last() =~= chars@.take(i as int));
            assert(chars@.take(i + 1).last() == chars@[i as int]);
        }
        if value > (u32::MAX - d) / 10 {
            proof {
                assert(decimal_value(chars@.take(i + 1)) > u32::MAX);
                if is_decimal(text@) {
                    lemma_decimal_prefix(text@, i + 1);
                }
            }
            return None;
        }
        value = value * 10 + d;
        i = i + 1;
    }
    assert(chars@.take(n as int) =~= chars@);
    Some(value)
}

} // verus!
