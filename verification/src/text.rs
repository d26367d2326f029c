//! Text as sequences of characters: prefixes, replacement and the case rules
//! that script and variable names are built with.

use vstd::prelude::*;

verus! {

/// The upper-case form of one character, which may be several characters.
pub uninterp spec fn uppercase_of(c: char) -> Seq<char>;

/// The lower-case form of a text.
pub uninterp spec fn lowercase_of(text: Seq<char>) -> Seq<char>;

/// The upper-case form of a character of ASCII: the capital letter of a
/// small letter, and any other character itself.
pub open spec fn ascii_upper(c: char) -> char {
    if 'a' <= c && c <= 'z' {
        ((c as u8) - 32) as u8 as char
    } else {
        c
    }
}

/// The lower-case form of a character of ASCII: the small letter of a
/// capital letter, and any other character itself.
pub open spec fn ascii_lower(c: char) -> char {
    if 'A' <= c && c <= 'Z' {
        ((c as u8) + 32) as u8 as char
    } else {
        c
    }
}

/// Every character of the text is one of ASCII.
pub open spec fn all_ascii(text: Seq<char>) -> bool {
    forall|i: int| 0 <= i < text.len() ==> (#[trigger] text[i] as u32) < 128
}

/// The character at `at` begins a word of `text`: it is no underscore, and
/// it stands first or follows an underscore.
pub open spec fn begins_word(text: Seq<char>, at: int) -> bool {
    0 <= at < text.len() && text[at] != '_' && (at == 0 || text[at - 1] == '_')
}

/// The upper-case form of every character of ASCII that begins a word of
/// `text` is the one character that `ascii_upper` gives.
pub open spec fn ascii_words_known(text: Seq<char>) -> bool {
    forall|i: int|
        begins_word(text, i) && (text[i] as u32) < 128 ==> uppercase_of(#[trigger] text[i])
            == seq![ascii_upper(text[i])]
}

/// Whether two texts hold the same characters.
pub fn text_eq(a: &str, b: &str) -> (same: bool)
    ensures
        same == (a@ == b@),
{
    let left = a.to_owned();
    let right = b.to_owned();
    left == right
}

/// `String::from_iter` over the characters of a vector, in order.
#[verifier::external_body]
pub(crate) fn string_of(chars: &Vec<char>) -> (text: String)
    ensures
        text@ == chars@,
{
    String::from_iter(chars.iter())
}

/// `char::to_uppercase`, collected: the upper-case form of `c`, which for a
/// character of ASCII is the one character that `ascii_upper` gives.
#[verifier::external_body]
pub(crate) fn upper_chars(c: char) -> (upper: Vec<char>)
    ensures
        upper@ == uppercase_of(c),
        (c as u32) < 128 ==> upper@ == seq![ascii_upper(c)],
{
    c.to_uppercase().collect()
}

/// `str::to_lowercase`: the lower-case form of the text, which for a text
/// of ASCII is the text with `ascii_lower` of each character.
#[verifier::external_body]
pub(crate) fn lowercase(text: &str) -> (lower: String)
    ensures
        lower@ == lowercase_of(text@),
        all_ascii(text@) ==> lower@ == text@.map_values(|c: char| ascii_lower(c)),
{
    text.to_lowercase()
}

/// `text` begins with `prefix`.
pub open spec fn starts_with(text: Seq<char>, prefix: Seq<char>) -> bool {
    prefix.len() <= text.len() && text.take(prefix.len() as int) == prefix
}

/// `text` with every occurrence of `from` replaced by `to`, found from the
/// left and never overlapping. An empty `from` occurs nowhere.
pub open spec fn replace_all(text: Seq<char>, from: Seq<char>, to: Seq<char>) -> Seq<char>
    decreases text.len(),
{
    if from.len() == 0 || text.len() < from.len() {
        text
    } else if starts_with(text, from) {
        to + replace_all(text.skip(from.len() as int), from, to)
    } else {
        seq![text[0]] + replace_all(text.skip(1), from, to)
    }
}

/// `text` with its first character in upper case.
pub open spec fn capitalized(text: Seq<char>) -> Seq<char> {
    if text.len() == 0 {
        text
    } else {
        uppercase_of(text[0]) + text.skip(1)
    }
}

/// `text` without its underscores, where every character that begins a word
/// (it stands first, or follows an underscore) is in upper case. `at_start`
/// says whether the first character begins a word.
pub open spec fn pascal_from(text: Seq<char>, at_start: bool) -> Seq<char>
    decreases text.len(),
{
    if text.len() == 0 {
        text
    } else if text[0] == '_' {
        pascal_from(text.skip(1), true)
    } else if at_start {
        uppercase_of(text[0]) + pascal_from(text.skip(1), false)
    } else {
        seq![text[0]] + pascal_from(text.skip(1), false)
    }
}

/// The words of `text` between underscores, each capitalized, joined with
/// nothing between them. Empty words leave nothing.
pub open spec fn pascal_case(text: Seq<char>) -> Seq<char> {
    pascal_from(text, true)
}

/// `text` in lower case with every hyphen turned into an underscore.
pub open spec fn snake_case(text: Seq<char>) -> Seq<char> {
    lowercase_of(replace_all(text, seq!['-'], seq!['_']))
}

/// `text` names a resource to fetch over HTTP or HTTPS.
pub open spec fn http_url(text: Seq<char>) -> bool {
    starts_with(text, "http://"@) || starts_with(text, "https://"@)
}

/// The characters of a text, in order.
pub fn chars_of(text: &str) -> (chars: Vec<char>)
    ensures
        chars@ == text@,
{
    let mut chars: Vec<char> = Vec::new();
    for c in it: text.chars()
        invariant
            it.seq() == text@,
            chars@ == it.seq().take(it.index() as int),
    {
        chars.push(c);
        assert(it.seq().take(it.index() + 1) == it.seq().take(it.index() as int).push(c));
    }
    chars
}

/// Whether `pattern` stands in `text` at position `at`.
fn matches_at(text: &Vec<char>, at: usize, pattern: &Vec<char>) -> (found: bool)
    requires
        at <= text.len(),
    ensures
        found == starts_with(text@.skip(at as int), pattern@),
{
    if pattern.len() > text.len() - at {
        return false;
    }
    let mut j: usize = 0;
    while j < pattern.len()
        invariant
            at <= text.len(),
            pattern.len() <= text.len() - at,
            j <= pattern.len(),
            forall|k: int| 0 <= k < j ==> text@[at + k] == pattern@[k],
        decreases pattern.len() - j,
    {
        if text[at + j] != pattern[j] {
            proof {
                let taken = text@.skip(at as int).take(pattern@.len() as int);
                assert(taken[j as int] == text@[at + j]);
            }
            return false;
        }
        j += 1;
    }
    proof {
        let taken = text@.skip(at as int).take(pattern@.len() as int);
        assert(taken =~= pattern@);
    }
    true
}

/// Whether `text` begins with `prefix`.
pub fn starts_with_text(text: &str, prefix: &str) -> (found: bool)
    ensures
        found == starts_with(text@, prefix@),
{
    let chars = chars_of(text);
    let pattern = chars_of(prefix);
    proof {
        assert(chars@.skip(0) =~= chars@);
    }
    matches_at(&chars, 0, &pattern)
}

/// Replaces every occurrence of `from` in `text` by `to`, on characters.
pub fn replace_chars(text: &Vec<char>, from: &Vec<char>, to: &Vec<char>) -> (out: Vec<char>)
    ensures
        out@ == replace_all(text@, from@, to@),
{
    let mut out: Vec<char> = Vec::new();
    let mut i: usize = 0;
    if from.len() == 0 {
        while i < text.len()
            invariant
                i <= text.len(),
                out@ == text@.take(i as int),
            decreases text.len() - i,
        {
            out.push(text[i]);
            i += 1;
            assert(text@.take(i as int) =~= text@.take(i - 1).push(text@[i - 1]));
        }
        assert(text@.take(i as int) =~= text@);
        return out;
    }
    proof {
        assert(text@.skip(0) =~= text@);
    }
    while i < text.len()
        invariant
            i <= text.len(),
            from@.len() > 0,
            out@ + replace_all(text@.skip(i as int), from@, to@) == replace_all(
                text@,
                from@,
                to@,
            ),
        decreases text.len() - i,
    {
        let ghost rest = text@.skip(i as int);
        let ghost before = out@;
        if matches_at(text, i, from) {
            let mut k: usize = 0;
            while k < to.len()
                invariant
                    k <= to.len(),
                    out@ == before + to@.take(k as int),
                decreases to.len() - k,
            {
                out.push(to[k]);
                k += 1;
                assert(before + to@.take(k as int) =~= (before + to@.take(k - 1)).push(
                    to@[k - 1],
                ));
            }
            proof {
                assert(to@.take(to@.len() as int) =~= to@);
                assert(rest.skip(from@.len() as int) =~= text@.skip(i + from@.len()));
                assert(out@ + replace_all(text@.skip(i + from@.len()), from@, to@) =~= before
                    + replace_all(rest, from@, to@));
            }
            i += from.len();
        } else {
            out.push(text[i]);
            proof {
                assert(rest.skip(1) =~= text@.skip(i + 1));
                if rest.len() < from@.len() {
                    lemma_replace_short(rest.skip(1), from@, to@);
                    assert(seq![rest[0]] + rest.skip(1) =~= rest);
                }
                assert(out@ + replace_all(text@.skip(i + 1), from@, to@) =~= before
                    + replace_all(rest, from@, to@));
            }
            i += 1;
        }
    }
    proof {
        assert(text@.skip(i as int) =~= Seq::empty());
        assert(out@ + Seq::<char>::empty() =~= out@);
    }
    out
}

/// Texts that hold different characters at some place differ.
pub proof fn lemma_differ_at(one: Seq<char>, other: Seq<char>, at: int)
    requires
        0 <= at < one.len(),
        at < other.len(),
        one[at] != other[at],
    ensures
        one != other,
{
}

/// Texts of different lengths differ.
pub proof fn lemma_lengths_differ(one: Seq<char>, other: Seq<char>)
    requires
        one.len() != other.len(),
    ensures
        one != other,
{
}

/// Replacement leaves a beginning of the text that holds nowhere the first
/// character of the pattern.
pub proof fn lemma_replace_keeps_prefix(
    prefix: Seq<char>,
    rest: Seq<char>,
    from: Seq<char>,
    to: Seq<char>,
)
    requires
        from.len() > 0,
        forall|i: int| 0 <= i < prefix.len() ==> prefix[i] != from[0],
    ensures
        replace_all(prefix + rest, from, to) == prefix + replace_all(rest, from, to),
    decreases prefix.len(),
{
    let text = prefix + rest;
    if prefix.len() == 0 {
        assert(text =~= rest);
        assert(prefix + replace_all(rest, from, to) =~= replace_all(rest, from, to));
    } else {
        let shorter = prefix.skip(1);
        assert(text.skip(1) =~= shorter + rest);
        assert(text[0] == prefix[0]);
        assert forall|i: int| 0 <= i < shorter.len() implies shorter[i] != from[0] by {
            assert(shorter[i] == prefix[i + 1]);
        }
        lemma_replace_keeps_prefix(shorter, rest, from, to);
        if text.len() < from.len() {
            assert(rest.len() < from.len());
            assert(prefix + rest =~= text);
        } else {
            assert(!starts_with(text, from)) by {
                if starts_with(text, from) {
                    assert(text.take(from.len() as int)[0] == from[0]);
                }
            }
            assert(seq![text[0]] + (shorter + replace_all(rest, from, to)) =~= prefix
                + replace_all(rest, from, to));
        }
    }
}

/// A text shorter than the pattern holds no occurrence of it.
pub proof fn lemma_replace_short(text: Seq<char>, from: Seq<char>, to: Seq<char>)
    requires
        text.len() < from.len(),
    ensures
        replace_all(text, from, to) == text,
{
}

/// Replaces every occurrence of `from` in `text` by `to`.
pub fn replace(text: &str, from: &str, to: &str) -> (out: String)
    ensures
        out@ == replace_all(text@, from@, to@),
{
    let chars = chars_of(text);
    let pattern = chars_of(from);
    let with = chars_of(to);
    let out = replace_chars(&chars, &pattern, &with);
    string_of(&out)
}

/// Puts the first character of `s` in upper case and leaves the rest. The
/// upper case of a character of ASCII is the one that `ascii_upper` gives.
pub fn capitalize_first(s: &str) -> (out: String)
    ensures
        out@ == capitalized(s@),
        s@.len() > 0 && (s@[0] as u32) < 128 ==> uppercase_of(s@[0]) == seq![ascii_upper(s@[0])],
{
    let chars = chars_of(s);
    capitalize_chars(&chars, 0, chars.len())
}

/// Capitalizes the characters of `text` from `from` up to `to`.
fn capitalize_chars(text: &Vec<char>, from: usize, to: usize) -> (out: String)
    requires
        from <= to <= text.len(),
    ensures
        out@ == capitalized(text@.subrange(from as int, to as int)),
        from < to && (text@[from as int] as u32) < 128 ==> uppercase_of(text@[from as int])
            == seq![ascii_upper(text@[from as int])],
{
    let ghost word = text@.subrange(from as int, to as int);
    if from == to {
        return String::new();
    }
    let mut out = upper_chars(text[from]);
    let ghost head = out@;
    let mut i: usize = from + 1;
    while i < to
        invariant
            from < i <= to <= text.len(),
            out@ == head + text@.subrange(from + 1, i as int),
        decreases to - i,
    {
        out.push(text[i]);
        i += 1;
        assert(text@.subrange(from + 1, i as int) =~= text@.subrange(from + 1, i - 1).push(
            text@[i - 1],
        ));
        assert(head + text@.subrange(from + 1, i as int) =~= (head + text@.subrange(
            from + 1,
            i - 1,
        )).push(text@[i - 1]));
    }
    proof {
        assert(word.skip(1) =~= text@.subrange(from + 1, to as int));
        assert(word[0] == text@[from as int]);
    }
    string_of(&out)
}

/// Joins the words of `s` between underscores, each with its first character
/// in upper case. The upper case of a character of ASCII is the one that
/// `ascii_upper` gives.
pub fn to_pascal_case(s: &str) -> (out: String)
    ensures
        out@ == pascal_case(s@),
        ascii_words_known(s@),
{
    let chars = chars_of(s);
    let mut out: Vec<char> = Vec::new();
    let mut at_start = true;
    let mut i: usize = 0;
    proof {
        assert(chars@.skip(0) =~= chars@);
    }
    while i < chars.len()
        invariant
            i <= chars.len(),
            chars@ == s@,
            out@ + pascal_from(chars@.skip(i as int), at_start) == pascal_case(s@),
            at_start == (i == 0 || chars@[i - 1] == '_'),
            forall|k: int|
                k < i && begins_word(chars@, k) && (chars@[k] as u32) < 128 ==> uppercase_of(
                    #[trigger] chars@[k],
                ) == seq![ascii_upper(chars@[k])],
        decreases chars.len() - i,
    {
        let ghost rest = chars@.skip(i as int);
        let ghost before = out@;
        let c = chars[i];
        proof {
            assert(rest.skip(1) =~= chars@.skip(i + 1));
        }
        if c == '_' {
            at_start = true;
        } else if at_start {
            let mut upper = upper_chars(c);
            out.append(&mut upper);
            at_start = false;
            proof {
                assert(out@ + pascal_from(rest.skip(1), false) =~= before + (uppercase_of(c)
                    + pascal_from(rest.skip(1), false)));
            }
        } else {
            out.push(c);
            proof {
                assert(out@ + pascal_from(rest.skip(1), false) =~= before + (seq![c]
                    + pascal_from(rest.skip(1), false)));
            }
        }
        i += 1;
    }
    proof {
        assert(chars@.skip(i as int) =~= Seq::empty());
        assert(out@ + Seq::<char>::empty() =~= out@);
    }
    string_of(&out)
}

/// Replacement leaves a text of ASCII one of ASCII where what is put in is
/// of ASCII.
pub proof fn lemma_replace_keeps_ascii(text: Seq<char>, from: Seq<char>, to: Seq<char>)
    requires
        all_ascii(text),
        all_ascii(to),
    ensures
        all_ascii(replace_all(text, from, to)),
    decreases text.len(),
{
    if from.len() == 0 || text.len() < from.len() {
    } else if starts_with(text, from) {
        let rest = text.skip(from.len() as int);
        assert forall|i: int| 0 <= i < rest.len() implies (#[trigger] rest[i] as u32) < 128 by {
            assert(rest[i] == text[i + from.len()]);
        }
        lemma_replace_keeps_ascii(rest, from, to);
        let tail = replace_all(rest, from, to);
        assert forall|i: int| 0 <= i < (to + tail).len() implies (#[trigger] (to + tail)[i]
            as u32) < 128 by {
            if i < to.len() {
                assert((to + tail)[i] == to[i]);
            } else {
                assert((to + tail)[i] == tail[i - to.len()]);
            }
        }
    } else {
        let rest = text.skip(1);
        assert forall|i: int| 0 <= i < rest.len() implies (#[trigger] rest[i] as u32) < 128 by {
            assert(rest[i] == text[i + 1]);
        }
        lemma_replace_keeps_ascii(rest, from, to);
        let tail = replace_all(rest, from, to);
        let joined = seq![text[0]] + tail;
        assert forall|i: int| 0 <= i < joined.len() implies (#[trigger] joined[i] as u32)
            < 128 by {
            if i == 0 {
                assert(joined[0] == text[0]);
            } else {
                assert(joined[i] == tail[i - 1]);
            }
        }
    }
}

/// Lower case, with every hyphen turned into an underscore. The lower case
/// of a text of ASCII is the text with `ascii_lower` of each character.
pub fn to_snake_case(s: &str) -> (out: String)
    ensures
        out@ == snake_case(s@),
        all_ascii(s@) ==> out@ == replace_all(s@, seq!['-'], seq!['_']).map_values(
            |c: char| ascii_lower(c),
        ),
{
    proof {
        if all_ascii(s@) {
            lemma_replace_keeps_ascii(s@, seq!['-'], seq!['_']);
        }
    }
    let chars = chars_of(s);
    let mut hyphen: Vec<char> = Vec::new();
    hyphen.push('-');
    let mut underscore: Vec<char> = Vec::new();
    underscore.push('_');
    proof {
        assert(hyphen@ =~= seq!['-']);
        assert(underscore@ =~= seq!['_']);
    }
    let replaced = replace_chars(&chars, &hyphen, &underscore);
    let joined = string_of(&replaced);
    lowercase(joined.as_str())
}

/// Whether `path` is a location to fetch over HTTP or HTTPS rather than a file.
pub fn is_http_url(path: &str) -> (remote: bool)
    ensures
        remote == http_url(path@),
{
    starts_with_text(path, "http://") || starts_with_text(path, "https://")
}

/// The two texts joined.
pub fn concat(a: &str, b: &str) -> (out: String)
    ensures
        out@ == a@ + b@,
{
    let mut out = String::from_str(a);
    out.append(b);
    out
}

} // verus!
