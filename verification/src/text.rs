//! Text as sequences of characters: searching, splitting, joining, and the
//! numerals that stand in generated text.
use vstd::prelude::*;
use vstd::utf8::*;

verus! {

/// `String::push`: the character is appended.
pub assume_specification[ std::string::String::push ](string: &mut String, ch: char)
    ensures
        final(string)@ == old(string)@.push(ch),
;

/// `String::from_utf8`: the text that the bytes encode, or nothing where they
/// are not valid UTF-8.
#[verifier::external_body]
pub(crate) fn string_from_utf8(bytes: Vec<u8>) -> (text: Option<String>)
    ensures
        text is Some <==> valid_utf8(bytes@),
        text is Some ==> text->0@ == decode_utf8(bytes@),
{
    String::from_utf8(bytes).ok()
}

/// The texts that a list of strings holds.
pub open spec fn views(parts: Seq<String>) -> Seq<Seq<char>> {
    parts.map_values(|s: String| s@)
}

/// What an optional string holds.
pub open spec fn opt_view(text: Option<String>) -> Option<Seq<char>> {
    match text {
        Some(s) => Some(s@),
        None => None,
    }
}

/// What an optional text holds.
pub open spec fn opt_str(text: Option<&str>) -> Option<Seq<char>> {
    match text {
        Some(s) => Some(s@),
        None => None,
    }
}

/// The text, or the empty one where there is none.
pub open spec fn or_empty(text: Option<Seq<char>>) -> Seq<char> {
    match text {
        Some(s) => s,
        None => Seq::empty(),
    }
}

/// `pattern` stands in `text` at position `at`.
pub open spec fn occurs_at(text: Seq<char>, pattern: Seq<char>, at: int) -> bool {
    &&& 0 <= at
    &&& at + pattern.len() <= text.len()
    &&& text.subrange(at, at + pattern.len()) == pattern
}

/// The first position, from `from` on, at which `pattern` stands in `text`.
pub open spec fn find_from(text: Seq<char>, pattern: Seq<char>, from: int) -> Option<int>
    decreases text.len() - from + 1,
{
    if from < 0 || from + pattern.len() > text.len() {
        None
    } else if occurs_at(text, pattern, from) {
        Some(from)
    } else {
        find_from(text, pattern, from + 1)
    }
}

/// `pattern` stands somewhere in `text`.
pub open spec fn has(text: Seq<char>, pattern: Seq<char>) -> bool {
    exists|at: int| occurs_at(text, pattern, at)
}

/// `text` begins with `prefix`.
pub open spec fn begins(text: Seq<char>, prefix: Seq<char>) -> bool {
    occurs_at(text, prefix, 0)
}

/// `text` ends with `suffix`.
pub open spec fn ends(text: Seq<char>, suffix: Seq<char>) -> bool {
    occurs_at(text, suffix, text.len() - suffix.len())
}

/// The last position at which `text` holds `c`.
pub open spec fn rfind(text: Seq<char>, c: char) -> Option<int>
    decreases text.len(),
{
    if text.len() == 0 {
        None
    } else if text.last() == c {
        Some(text.len() - 1)
    } else {
        rfind(text.drop_last(), c)
    }
}

/// The pieces of `text` from position `start` on, cut at every `separator`
/// from left to right.
pub open spec fn split_from(text: Seq<char>, separator: Seq<char>, start: int) -> Seq<Seq<char>>
    decreases text.len() - start,
    when 0 <= start && separator.len() > 0
{
    match find_from(text, separator, start) {
        Some(at) => {
            proof {
                lemma_find(text, separator, start);
            }
            seq![text.subrange(start, at)] + split_from(text, separator, at + separator.len())
        },
        None => seq![text.skip(start)],
    }
}

/// The pieces of `text` between the separators: one more than there are
/// separators.
pub open spec fn split_at_each(text: Seq<char>, separator: Seq<char>) -> Seq<Seq<char>> {
    split_from(text, separator, 0)
}

/// The parts with a separator between each two.
pub open spec fn joined(parts: Seq<Seq<char>>, separator: Seq<char>) -> Seq<char>
    decreases parts.len(),
{
    if parts.len() == 0 {
        seq![]
    } else if parts.len() == 1 {
        parts[0]
    } else {
        joined(parts.drop_last(), separator) + separator + parts.last()
    }
}

/// Space, tab, line feed, form feed and carriage return.
pub open spec fn is_ascii_space(c: char) -> bool {
    c == ' ' || c == '\t' || c == '\n' || c == '\u{c}' || c == '\r'
}

/// The characters with the Unicode property White_Space.
pub open spec fn is_space(c: char) -> bool {
    ||| '\t' <= c <= '\r'
    ||| c == ' '
    ||| c == '\u{85}'
    ||| c == '\u{a0}'
    ||| c == '\u{1680}'
    ||| '\u{2000}' <= c <= '\u{200a}'
    ||| c == '\u{2028}'
    ||| c == '\u{2029}'
    ||| c == '\u{202f}'
    ||| c == '\u{205f}'
    ||| c == '\u{3000}'
}

/// The longest runs without ASCII white space, from left to right: a character
/// is white space, or it begins a run, or it extends the last one.
pub open spec fn fields_of(text: Seq<char>) -> Seq<Seq<char>>
    decreases text.len(),
{
    if text.len() == 0 {
        seq![]
    } else {
        let before = fields_of(text.drop_last());
        let c = text.last();
        if is_ascii_space(c) {
            before
        } else if text.len() == 1 || is_ascii_space(text[text.len() - 2]) {
            before.push(seq![c])
        } else {
            before.drop_last().push(before.last().push(c))
        }
    }
}

/// `text` without the white space that it begins with.
pub open spec fn trimmed_start(text: Seq<char>) -> Seq<char>
    decreases text.len(),
{
    if text.len() > 0 && is_space(text[0]) {
        trimmed_start(text.drop_first())
    } else {
        text
    }
}

/// `text` without the white space that it ends with.
pub open spec fn trimmed_end(text: Seq<char>) -> Seq<char>
    decreases text.len(),
{
    if text.len() > 0 && is_space(text.last()) {
        trimmed_end(text.drop_last())
    } else {
        text
    }
}

/// `text` without white space at either end.
pub open spec fn trimmed(text: Seq<char>) -> Seq<char> {
    trimmed_end(trimmed_start(text))
}

/// `text` without the characters `c` that it ends with.
pub open spec fn without_trailing(text: Seq<char>, c: char) -> Seq<char>
    decreases text.len(),
{
    if text.len() > 0 && text.last() == c {
        without_trailing(text.drop_last(), c)
    } else {
        text
    }
}

/// A letter A to Z in lower case; any other character as it is.
pub open spec fn ascii_lower(c: char) -> char {
    if 'A' <= c <= 'Z' {
        (c as u8 + 32) as char
    } else {
        c
    }
}

/// Equal but for the case of ASCII letters.
pub open spec fn same_ignoring_case(a: Seq<char>, b: Seq<char>) -> bool {
    a.len() == b.len() && forall|i: int|
        0 <= i < a.len() ==> ascii_lower(#[trigger] a[i]) == ascii_lower(b[i])
}

/// A number in decimal notation.
pub open spec fn decimal(n: nat) -> Seq<char>
    decreases n,
{
    if n < 10 {
        seq![(0x30 + n) as char]
    } else {
        decimal(n / 10).push((0x30 + n % 10) as char)
    }
}

/// The lower-case hexadecimal digit of a number below sixteen.
pub open spec fn lower_hex(n: int) -> char {
    if n < 10 {
        (0x30 + n) as char
    } else {
        (0x57 + n) as char
    }
}

/// The upper-case hexadecimal digit of a number below sixteen.
pub open spec fn upper_hex(n: int) -> char {
    if n < 10 {
        (0x30 + n) as char
    } else {
        (0x37 + n) as char
    }
}

/// Where a search ends: at the first place where the pattern stands.
pub proof fn lemma_find(text: Seq<char>, pattern: Seq<char>, from: int)
    requires
        0 <= from,
    ensures
        match find_from(text, pattern, from) {
            Some(at) => from <= at && occurs_at(text, pattern, at) && forall|j: int|
                from <= j < at ==> !#[trigger] occurs_at(text, pattern, j),
            None => forall|j: int| from <= j ==> !#[trigger] occurs_at(text, pattern, j),
        },
    decreases text.len() - from + 1,
{
    if from + pattern.len() <= text.len() && !occurs_at(text, pattern, from) {
        lemma_find(text, pattern, from + 1);
    }
}

/// A search finds the pattern exactly where the text has it.
pub proof fn lemma_find_has(text: Seq<char>, pattern: Seq<char>)
    ensures
        find_from(text, pattern, 0) is Some <==> has(text, pattern),
{
    lemma_find(text, pattern, 0);
    if has(text, pattern) {
        let at = choose|at: int| occurs_at(text, pattern, at);
        assert(occurs_at(text, pattern, at));
    }
}

/// Joining from the left: the first part, a separator, and the others joined.
pub proof fn lemma_joined_first(parts: Seq<Seq<char>>, separator: Seq<char>)
    requires
        parts.len() > 1,
    ensures
        joined(parts, separator) == parts[0] + separator + joined(parts.drop_first(), separator),
    decreases parts.len(),
{
    let init = parts.drop_last();
    if parts.len() == 2 {
        assert(joined(init, separator) == parts[0]);
        assert(parts.drop_first()[0] == parts[1]);
    } else {
        lemma_joined_first(init, separator);
        assert(init.drop_first() == parts.drop_first().drop_last());
        assert(joined(parts, separator) == parts[0] + separator + joined(
            init.drop_first(),
            separator,
        ) + separator + parts.last());
        assert(parts[0] + separator + joined(init.drop_first(), separator) + separator
            + parts.last() == parts[0] + separator + (joined(init.drop_first(), separator)
            + separator + parts.last()));
    }
}

/// The search for a character ends at the first place that holds it.
pub proof fn lemma_find_char(text: Seq<char>, c: char, from: int, at: int)
    requires
        0 <= from <= at <= text.len(),
        forall|j: int| from <= j < at ==> text[j] != c,
        at < text.len() ==> text[at] == c,
    ensures
        find_from(text, seq![c], from) == if at < text.len() {
            Some(at)
        } else {
            None
        },
    decreases at - from,
{
    if from < text.len() {
        assert(text.subrange(from, from + 1) == seq![text[from]]);
        assert(seq![text[from]][0] == text[from]);
        assert(seq![c][0] == c);
        if from < at {
            lemma_find_char(text, c, from + 1, at);
        }
    }
}

proof fn lemma_split_joined_after(prefix: Seq<char>, parts: Seq<Seq<char>>, c: char)
    requires
        parts.len() > 0,
        forall|i: int| 0 <= i < parts.len() ==> !(#[trigger] parts[i]).contains(c),
    ensures
        split_from(prefix + joined(parts, seq![c]), seq![c], prefix.len() as int) == parts,
    decreases parts.len(),
{
    let separator = seq![c];
    let tail = joined(parts, separator);
    let whole = prefix + tail;
    let start = prefix.len() as int;
    let first = parts[0];
    let cut = start + first.len();
    assert(!first.contains(c));
    if parts.len() == 1 {
        assert forall|j: int| start <= j < cut implies whole[j] != c by {
            assert(whole[j] == first[j - start]);
        }
        lemma_find_char(whole, c, start, cut);
        assert(whole.skip(start) == first);
        assert(seq![first] == parts);
    } else {
        let rest = parts.drop_first();
        let longer = prefix + first + separator;
        lemma_joined_first(parts, separator);
        assert(whole == longer + joined(rest, separator));
        assert forall|j: int| start <= j < cut implies whole[j] != c by {
            assert(whole[j] == first[j - start]);
        }
        assert(whole[cut] == separator[0]);
        lemma_find_char(whole, c, start, cut);
        assert(whole.subrange(start, cut) == first);
        assert forall|i: int| 0 <= i < rest.len() implies !(#[trigger] rest[i]).contains(c) by {
            assert(rest[i] == parts[i + 1]);
        }
        lemma_split_joined_after(longer, rest, c);
        assert(longer.len() == cut + 1);
        assert(seq![first] + rest == parts);
    }
}

/// Splitting at a character gives back what was joined with it, where none of
/// the parts holds that character.
pub proof fn lemma_split_joined(parts: Seq<Seq<char>>, c: char)
    requires
        parts.len() > 0,
        forall|i: int| 0 <= i < parts.len() ==> !(#[trigger] parts[i]).contains(c),
    ensures
        split_at_each(joined(parts, seq![c]), seq![c]) == parts,
{
    let empty: Seq<char> = seq![];
    lemma_split_joined_after(empty, parts, c);
    assert(empty + joined(parts, seq![c]) == joined(parts, seq![c]));
}

/// The characters of a text.
pub fn chars_of(text: &str) -> (chars: Vec<char>)
    ensures
        chars@ == text@,
{
    let mut chars: Vec<char> = Vec::new();
    for c in it: text.chars()
        invariant
            it.seq() == text@,
            chars@ == text@.take(it.index() as int),
    {
        chars.push(c);
        assert(text@.take(it.index() + 1) == text@.take(it.index() as int).push(c));
    }
    assert(text@.take(text@.len() as int) == text@);
    chars
}

/// The text that the characters from `from` to `to` make.
pub fn text_of(chars: &Vec<char>, from: usize, to: usize) -> (text: String)
    requires
        from <= to <= chars@.len(),
    ensures
        text@ == chars@.subrange(from as int, to as int),
{
    let mut text = String::new();
    for i in from..to
        invariant
            from <= to <= chars@.len(),
            text@ == chars@.subrange(from as int, i as int),
    {
        text.push(chars[i]);
    }
    text
}

fn occurs(chars: &Vec<char>, pattern: &Vec<char>, at: usize) -> (r: bool)
    requires
        at + pattern.len() <= chars.len(),
    ensures
        r == occurs_at(chars@, pattern@, at as int),
{
    for i in 0..pattern.len()
        invariant
            at + pattern.len() <= chars.len(),
            forall|j: int| 0 <= j < i ==> chars@[at + j] == pattern@[j],
    {
        if chars[at + i] != pattern[i] {
            assert(chars@.subrange(at as int, at + pattern@.len())[i as int] != pattern@[i as int]);
            return false;
        }
    }
    assert(chars@.subrange(at as int, at + pattern@.len()) == pattern@);
    true
}

/// The first position, from `from` on, at which `pattern` stands.
pub fn find(chars: &Vec<char>, pattern: &Vec<char>, from: usize) -> (r: Option<usize>)
    requires
        from <= chars@.len(),
    ensures
        match r {
            Some(at) => find_from(chars@, pattern@, from as int) == Some(at as int) && from <= at
                && at + pattern.len() <= chars.len(),
            None => find_from(chars@, pattern@, from as int) is None,
        },
{
    let mut at: usize = from;
    while pattern.len() <= chars.len() - at
        invariant
            from <= at <= chars@.len(),
            find_from(chars@, pattern@, from as int) == find_from(chars@, pattern@, at as int),
        decreases chars@.len() - at,
    {
        if occurs(chars, pattern, at) {
            return Some(at);
        }
        if at == chars.len() {
            assert(chars@.subrange(at as int, at as int) == pattern@);
        }
        at = at + 1;
    }
    None
}

/// Whether two texts are equal.
pub fn equals(a: &str, b: &str) -> (r: bool)
    ensures
        r == (a@ == b@),
{
    let x = a.as_bytes();
    let y = b.as_bytes();
    if x.len() != y.len() {
        return false;
    }
    for i in 0..x.len()
        invariant
            x@ == encode_utf8(a@),
            y@ == encode_utf8(b@),
            x@.len() == y@.len(),
            forall|j: int| 0 <= j < i ==> x@[j] == y@[j],
    {
        if x[i] != y[i] {
            return false;
        }
    }
    proof {
        assert(x@ == y@);
        encode_utf8_decode_utf8(a@);
        encode_utf8_decode_utf8(b@);
    }
    true
}

/// Whether an optional text is the given one.
pub fn is_text(text: Option<&str>, expected: &str) -> (r: bool)
    ensures
        r == (opt_str(text) == Some(expected@)),
{
    match text {
        Some(t) => equals(t, expected),
        None => false,
    }
}

/// The text in an optional string.
pub fn text_in(string: &Option<String>) -> (r: Option<&str>)
    ensures
        opt_str(r) == opt_view(*string),
{
    match string {
        Some(s) => Some(s.as_str()),
        None => None,
    }
}

/// The text, or the empty one where there is none.
pub fn text_or_empty(text: Option<&str>) -> (r: &str)
    ensures
        r@ == or_empty(opt_str(text)),
{
    proof {
        reveal_strlit("");
        assert(""@ == Seq::<char>::empty());
    }
    match text {
        Some(s) => s,
        None => "",
    }
}

/// Whether `pattern` stands somewhere in `text`.
pub fn contains(text: &str, pattern: &str) -> (r: bool)
    ensures
        r == has(text@, pattern@),
{
    proof {
        lemma_find_has(text@, pattern@);
    }
    find(&chars_of(text), &chars_of(pattern), 0).is_some()
}

/// Whether `text` begins with `prefix`.
pub fn starts_with(text: &str, prefix: &str) -> (r: bool)
    ensures
        r == begins(text@, prefix@),
{
    let chars = chars_of(text);
    let pattern = chars_of(prefix);
    pattern.len() <= chars.len() && occurs(&chars, &pattern, 0)
}

/// Whether `text` ends with `suffix`.
pub fn ends_with(text: &str, suffix: &str) -> (r: bool)
    ensures
        r == ends(text@, suffix@),
{
    let chars = chars_of(text);
    let pattern = chars_of(suffix);
    pattern.len() <= chars.len() && occurs(&chars, &pattern, chars.len() - pattern.len())
}

/// What follows `prefix`, where `text` begins with it.
pub fn strip_prefix(text: &str, prefix: &str) -> (r: Option<String>)
    ensures
        match r {
            Some(rest) => begins(text@, prefix@) && rest@ == text@.skip(prefix@.len() as int),
            None => !begins(text@, prefix@),
        },
{
    if starts_with(text, prefix) {
        let chars = chars_of(text);
        let skipped: usize = chars_of(prefix).len();
        let rest = text_of(&chars, skipped, chars.len());
        assert(rest@ == text@.skip(prefix@.len() as int));
        Some(rest)
    } else {
        None
    }
}

/// What precedes `suffix`, where `text` ends with it.
pub fn strip_suffix(text: &str, suffix: &str) -> (r: Option<String>)
    ensures
        match r {
            Some(rest) => ends(text@, suffix@) && rest@ == text@.take(
                text@.len() - suffix@.len(),
            ),
            None => !ends(text@, suffix@),
        },
{
    if ends_with(text, suffix) {
        let chars = chars_of(text);
        let kept: usize = chars.len() - chars_of(suffix).len();
        let rest = text_of(&chars, 0, kept);
        assert(rest@ == text@.take(text@.len() - suffix@.len()));
        Some(rest)
    } else {
        None
    }
}

/// The texts before and after the first `separator`.
pub fn split_once(text: &str, separator: &str) -> (r: Option<(String, String)>)
    ensures
        match r {
            Some((head, tail)) => find_from(text@, separator@, 0) == Some(head@.len() as int)
                && head@ == text@.take(head@.len() as int) && tail@ == text@.skip(
                (head@.len() + separator@.len()) as int,
            ),
            None => find_from(text@, separator@, 0) is None,
        },
{
    let chars = chars_of(text);
    let pattern = chars_of(separator);
    match find(&chars, &pattern, 0) {
        Some(at) => {
            let head = text_of(&chars, 0, at);
            let tail = text_of(&chars, at + pattern.len(), chars.len());
            assert(head@ == text@.take(at as int));
            assert(tail@ == text@.skip(at + pattern@.len()));
            Some((head, tail))
        },
        None => None,
    }
}

/// The texts before and after the last `c`.
pub fn rsplit_once(text: &str, c: char) -> (r: Option<(String, String)>)
    ensures
        match r {
            Some((head, tail)) => rfind(text@, c) == Some(head@.len() as int) && head@
                == text@.take(head@.len() as int) && tail@ == text@.skip(head@.len() as int + 1),
            None => rfind(text@, c) is None,
        },
{
    let chars = chars_of(text);
    let mut at: usize = chars.len();
    assert(chars@.take(at as int) == text@);
    while at > 0
        invariant
            at <= chars.len(),
            chars@ == text@,
            rfind(chars@.take(at as int), c) == rfind(text@, c),
        decreases at,
    {
        assert(chars@.take(at as int).drop_last() == chars@.take(at - 1));
        at = at - 1;
        if chars[at] == c {
            let head = text_of(&chars, 0, at);
            let tail = text_of(&chars, at + 1, chars.len());
            assert(head@ == text@.take(at as int));
            assert(tail@ == text@.skip(at + 1));
            return Some((head, tail));
        }
    }
    None
}

/// The pieces between the separators.
pub fn split(text: &str, separator: &str) -> (parts: Vec<String>)
    requires
        separator@.len() > 0,
    ensures
        views(parts@) == split_at_each(text@, separator@),
{
    let chars = chars_of(text);
    let pattern = chars_of(separator);
    let mut parts: Vec<String> = Vec::new();
    let mut start: usize = 0;
    let ghost whole = split_at_each(text@, separator@);
    assert(views(parts@) + split_from(chars@, pattern@, 0) == whole);
    loop
        invariant
            chars@ == text@,
            pattern@ == separator@,
            pattern@.len() > 0,
            start <= chars@.len(),
            views(parts@) + split_from(chars@, pattern@, start as int) == whole,
            whole == split_at_each(text@, separator@),
        decreases chars@.len() - start,
    {
        let ghost before = views(parts@);
        match find(&chars, &pattern, start) {
            Some(at) => {
                let piece = text_of(&chars, start, at);
                parts.push(piece);
                proof {
                    let rest = split_from(chars@, pattern@, at + pattern@.len());
                    assert(views(parts@) == before.push(piece@));
                    assert(views(parts@) + rest == before + (seq![piece@] + rest));
                }
                start = at + pattern.len();
            },
            None => {
                let piece = text_of(&chars, start, chars.len());
                parts.push(piece);
                proof {
                    assert(piece@ == chars@.skip(start as int));
                    assert(views(parts@) == before.push(piece@));
                    assert(before.push(piece@) == before + seq![piece@]);
                }
                return parts;
            },
        }
    }
}

/// The parts with a separator between each two.
pub fn join(parts: &Vec<String>, separator: &str) -> (text: String)
    ensures
        text@ == joined(views(parts@), separator@),
{
    let mut text = String::new();
    for i in 0..parts.len()
        invariant
            text@ == joined(views(parts@).take(i as int), separator@),
    {
        proof {
            assert(views(parts@).take(i + 1).drop_last() == views(parts@).take(i as int));
            assert(views(parts@).take(i + 1).last() == parts@[i as int]@);
        }
        if i > 0 {
            text.append(separator);
        }
        text.append(parts[i].as_str());
    }
    assert(views(parts@).take(parts@.len() as int) == views(parts@));
    text
}

fn ascii_space(c: char) -> (r: bool)
    ensures
        r == is_ascii_space(c),
{
    c == ' ' || c == '\t' || c == '\n' || c == '\u{c}' || c == '\r'
}

fn space(c: char) -> (r: bool)
    ensures
        r == is_space(c),
{
    ('\t' <= c && c <= '\r') || c == ' ' || c == '\u{85}' || c == '\u{a0}' || c == '\u{1680}' || (
    '\u{2000}' <= c && c <= '\u{200a}') || c == '\u{2028}' || c == '\u{2029}' || c == '\u{202f}'
        || c == '\u{205f}' || c == '\u{3000}'
}

/// The longest runs without ASCII white space.
pub fn fields(text: &str) -> (parts: Vec<String>)
    ensures
        views(parts@) == fields_of(text@),
{
    let chars = chars_of(text);
    let mut parts: Vec<String> = Vec::new();
    let mut run = String::new();
    assert(views(parts@) == fields_of(chars@.take(0)));
    for i in 0..chars.len()
        invariant
            chars@ == text@,
            if run@.len() == 0 {
                &&& views(parts@) == fields_of(chars@.take(i as int))
                &&& i == 0 || is_ascii_space(chars@[i - 1])
            } else {
                &&& i > 0
                &&& !is_ascii_space(chars@[i - 1])
                &&& views(parts@).push(run@) == fields_of(chars@.take(i as int))
            },
    {
        let c = chars[i];
        let ghost before = views(parts@);
        proof {
            let next = chars@.take(i + 1);
            assert(next.drop_last() == chars@.take(i as int));
            assert(next.last() == c);
            assert(i > 0 ==> next[next.len() - 2] == chars@[i - 1]);
        }
        if ascii_space(c) {
            if !run.as_str().is_empty() {
                parts.push(run);
                assert(views(parts@) == before.push(run@));
                run = String::new();
            }
        } else {
            proof {
                assert(before.push(run@).drop_last() == before);
                assert(run@.len() == 0 ==> run@.push(c) == seq![c]);
            }
            run.push(c);
        }
    }
    assert(chars@.take(chars@.len() as int) == text@);
    if !run.as_str().is_empty() {
        let ghost before = views(parts@);
        parts.push(run);
        assert(views(parts@) == before.push(run@));
    }
    parts
}

/// The text without white space at either end.
pub fn trim(text: &str) -> (r: String)
    ensures
        r@ == trimmed(text@),
{
    let chars = chars_of(text);
    let mut from: usize = 0;
    assert(chars@.skip(0) == text@);
    while from < chars.len() && space(chars[from])
        invariant
            from <= chars@.len(),
            trimmed_start(chars@.skip(from as int)) == trimmed_start(text@),
        decreases chars@.len() - from,
    {
        assert(chars@.skip(from as int).drop_first() == chars@.skip(from + 1));
        from = from + 1;
    }
    let ghost kept = chars@.skip(from as int);
    assert(kept == trimmed_start(text@));
    let mut to: usize = chars.len();
    assert(chars@.subrange(from as int, to as int) == kept);
    while from < to && space(chars[to - 1])
        invariant
            from <= to <= chars@.len(),
            trimmed_end(chars@.subrange(from as int, to as int)) == trimmed_end(kept),
        decreases to,
    {
        assert(chars@.subrange(from as int, to as int).drop_last() == chars@.subrange(
            from as int,
            to - 1,
        ));
        to = to - 1;
    }
    text_of(&chars, from, to)
}

/// The text without the characters `c` that it ends with.
pub fn trim_end_matches(text: &str, c: char) -> (r: String)
    ensures
        r@ == without_trailing(text@, c),
{
    let chars = chars_of(text);
    let mut to: usize = chars.len();
    assert(chars@.take(to as int) == text@);
    while 0 < to && chars[to - 1] == c
        invariant
            to <= chars@.len(),
            without_trailing(chars@.take(to as int), c) == without_trailing(text@, c),
        decreases to,
    {
        assert(chars@.take(to as int).drop_last() == chars@.take(to - 1));
        to = to - 1;
    }
    assert(chars@.take(to as int) == chars@.subrange(0, to as int));
    text_of(&chars, 0, to)
}

fn lower(c: char) -> (r: char)
    ensures
        r == ascii_lower(c),
{
    if 'A' <= c && c <= 'Z' {
        (c as u8 + 32) as char
    } else {
        c
    }
}

/// Whether two texts are equal but for the case of ASCII letters.
pub fn equals_ignoring_case(a: &str, b: &str) -> (r: bool)
    ensures
        r == same_ignoring_case(a@, b@),
{
    let x = chars_of(a);
    let y = chars_of(b);
    if x.len() != y.len() {
        return false;
    }
    for i in 0..x.len()
        invariant
            x@ == a@,
            y@ == b@,
            x@.len() == y@.len(),
            forall|j: int| 0 <= j < i ==> ascii_lower(#[trigger] x@[j]) == ascii_lower(y@[j]),
    {
        if lower(x[i]) != lower(y[i]) {
            return false;
        }
    }
    true
}

/// Appends a number in decimal notation.
pub fn push_decimal(text: &mut String, n: u128)
    ensures
        final(text)@ == old(text)@ + decimal(n as nat),
    decreases n,
{
    if n >= 10 {
        push_decimal(text, n / 10);
    }
    text.push((0x30 + (n % 10) as u8) as char);
}

/// The lower-case hexadecimal digit of a number below sixteen.
pub fn hex_digit(n: u8) -> (c: char)
    requires
        n < 16,
    ensures
        c == lower_hex(n as int),
{
    if n < 10 {
        (0x30 + n) as char
    } else {
        (0x57 + n) as char
    }
}

/// The upper-case hexadecimal digit of a number below sixteen.
pub fn upper_hex_digit(n: u8) -> (c: char)
    requires
        n < 16,
    ensures
        c == upper_hex(n as int),
{
    if n < 10 {
        (0x30 + n) as char
    } else {
        (0x37 + n) as char
    }
}

/// A copy of a list of strings.
pub fn copies(parts: &Vec<String>, from: usize, to: usize) -> (r: Vec<String>)
    requires
        from <= to <= parts@.len(),
    ensures
        views(r@) == views(parts@).subrange(from as int, to as int),
{
    let mut r: Vec<String> = Vec::new();
    for i in from..to
        invariant
            from <= to <= parts@.len(),
            views(r@) == views(parts@).subrange(from as int, i as int),
    {
        let ghost before = views(r@);
        r.push(parts[i].clone());
        assert(views(r@) == before.push(parts@[i as int]@));
    }
    r
}

/// What it is to begin with a text, to end with it, and to hold it: something
/// can be put behind it, before it, or on both sides, so that the whole comes
/// out.
pub proof fn law_affixes(text: Seq<char>, affix: Seq<char>)
    ensures
        begins(text, affix) <==> exists|rest: Seq<char>| text == #[trigger] (affix + rest),
        ends(text, affix) <==> exists|rest: Seq<char>| text == #[trigger] (rest + affix),
        has(text, affix) <==> exists|a: Seq<char>, b: Seq<char>| text == #[trigger] (a + affix + b),
{
    let n = affix.len() as int;
    if begins(text, affix) {
        assert(text == affix + text.skip(n));
    }
    if exists|rest: Seq<char>| text == #[trigger] (affix + rest) {
        let rest = choose|rest: Seq<char>| text == #[trigger] (affix + rest);
        assert(text.subrange(0, n) == affix);
    }
    if ends(text, affix) {
        assert(text == text.take(text.len() - n) + affix);
    }
    if exists|rest: Seq<char>| text == #[trigger] (rest + affix) {
        let rest = choose|rest: Seq<char>| text == #[trigger] (rest + affix);
        assert(text.subrange(text.len() - n, text.len() as int) == affix);
    }
    if has(text, affix) {
        let at = choose|at: int| occurs_at(text, affix, at);
        assert(text == text.take(at) + affix + text.skip(at + n));
    }
    if exists|a: Seq<char>, b: Seq<char>| text == #[trigger] (a + affix + b) {
        let (a, b) = choose|a: Seq<char>, b: Seq<char>| text == #[trigger] (a + affix + b);
        assert(text.subrange(a.len() as int, a.len() + n) == affix);
        assert(occurs_at(text, affix, a.len() as int));
    }
}

/// Where a text stands in another one: the other one is what precedes it, the
/// text, and what follows it.
pub proof fn law_occurrence(text: Seq<char>, pattern: Seq<char>, at: int)
    ensures
        occurs_at(text, pattern, at) <==> 0 <= at && at + pattern.len() <= text.len() && text
            == text.take(at) + pattern + text.skip(at + pattern.len()),
{
    if 0 <= at && at + pattern.len() <= text.len() {
        let n = pattern.len() as int;
        if text.subrange(at, at + n) == pattern {
            assert(text == text.take(at) + pattern + text.skip(at + n));
        }
        if text == text.take(at) + pattern + text.skip(at + n) {
            assert((text.take(at) + pattern + text.skip(at + n)).subrange(at, at + n) == pattern);
        }
    }
}

/// A character is found at the last place that holds it.
pub proof fn law_rfind(text: Seq<char>, c: char)
    ensures
        match rfind(text, c) {
            Some(at) => 0 <= at < text.len() && text[at] == c && forall|i: int|
                at < i < text.len() ==> text[i] != c,
            None => forall|i: int| 0 <= i < text.len() ==> text[i] != c,
        },
    decreases text.len(),
{
    if text.len() > 0 && text.last() != c {
        let init = text.drop_last();
        law_rfind(init, c);
        assert forall|i: int| 0 <= i < init.len() implies init[i] == text[i] by {}
    }
}

/// Joining: nothing comes of nothing, one part stands alone, and each further
/// part comes with one separator before it.
pub proof fn law_joined(parts: Seq<Seq<char>>, part: Seq<char>, separator: Seq<char>)
    ensures
        joined(seq![], separator) == Seq::<char>::empty(),
        joined(seq![part], separator) == part,
        parts.len() > 0 ==> joined(parts.push(part), separator) == joined(parts, separator)
            + separator + part,
{
    assert(parts.push(part).drop_last() == parts);
}

proof fn lemma_split_from(text: Seq<char>, separator: Seq<char>, start: int)
    requires
        separator.len() > 0,
        0 <= start <= text.len(),
    ensures
        split_from(text, separator, start).len() > 0,
        joined(split_from(text, separator, start), separator) == text.skip(start),
        forall|i: int|
            0 <= i < split_from(text, separator, start).len() ==> !(has(
                #[trigger] split_from(text, separator, start)[i],
                separator,
            )),
    decreases text.len() - start,
{
    lemma_find(text, separator, start);
    let parts = split_from(text, separator, start);
    match find_from(text, separator, start) {
        Some(at) => {
            let piece = text.subrange(start, at);
            let rest = split_from(text, separator, at + separator.len());
            lemma_split_from(text, separator, at + separator.len());
            assert(parts == seq![piece] + rest);
            assert(parts.drop_first() == rest);
            lemma_joined_first(parts, separator);
            assert(text.subrange(at, at + separator.len()) == separator);
            assert(text.skip(start) == piece + separator + text.skip(at + separator.len()));
            if has(piece, separator) {
                let k = choose|k: int| occurs_at(piece, separator, k);
                assert(text.subrange(start + k, start + k + separator.len()) == piece.subrange(
                    k,
                    k + separator.len(),
                ));
                assert(occurs_at(text, separator, start + k));
            }
            assert forall|i: int| 0 <= i < parts.len() implies !(has(
                #[trigger] parts[i],
                separator,
            )) by {
                if i > 0 {
                    assert(parts[i] == rest[i - 1]);
                }
            }
        },
        None => {
            let piece = text.skip(start);
            assert(parts == seq![piece]);
            if has(piece, separator) {
                let k = choose|k: int| occurs_at(piece, separator, k);
                assert(text.subrange(start + k, start + k + separator.len()) == piece.subrange(
                    k,
                    k + separator.len(),
                ));
                assert(occurs_at(text, separator, start + k));
            }
        },
    }
}

/// The pieces of a text hold no separator, and joined they are the text.
pub proof fn law_split(text: Seq<char>, separator: Seq<char>)
    requires
        separator.len() > 0,
    ensures
        split_at_each(text, separator).len() > 0,
        joined(split_at_each(text, separator), separator) == text,
        forall|i: int|
            0 <= i < split_at_each(text, separator).len() ==> !(has(
                #[trigger] split_at_each(text, separator)[i],
                separator,
            )),
{
    lemma_split_from(text, separator, 0);
    assert(text.skip(0) == text);
}

/// What is joined by line ends is split into the same lines, where no line holds
/// a carriage return.
pub proof fn law_lines(lines: Seq<Seq<char>>)
    requires
        lines.len() > 0,
        forall|i: int| 0 <= i < lines.len() ==> !(#[trigger] lines[i]).contains('\r'),
    ensures
        split_at_each(joined(lines, "\r\n"@), "\r\n"@) == lines,
{
    let empty: Seq<char> = seq![];
    lemma_lines_after(empty, lines);
    assert(empty + joined(lines, "\r\n"@) == joined(lines, "\r\n"@));
}

proof fn lemma_find_line_end(text: Seq<char>, from: int, at: int)
    requires
        0 <= from <= at <= text.len(),
        forall|j: int| from <= j < at ==> text[j] != '\r',
        at < text.len() ==> at + 1 < text.len() && text[at] == '\r' && text[at + 1] == '\n',
    ensures
        find_from(text, "\r\n"@, from) == if at < text.len() {
            Some(at)
        } else {
            None
        },
    decreases at - from,
{
    reveal_strlit("\r\n");
    if from + 2 <= text.len() {
        let here = text.subrange(from, from + 2);
        if from < at {
            assert(here[0] == text[from]);
            lemma_find_line_end(text, from + 1, at);
        } else {
            assert(here == "\r\n"@);
        }
    }
}

proof fn lemma_lines_after(prefix: Seq<char>, lines: Seq<Seq<char>>)
    requires
        lines.len() > 0,
        forall|i: int| 0 <= i < lines.len() ==> !(#[trigger] lines[i]).contains('\r'),
    ensures
        split_from(prefix + joined(lines, "\r\n"@), "\r\n"@, prefix.len() as int) == lines,
    decreases lines.len(),
{
    reveal_strlit("\r\n");
    let separator = "\r\n"@;
    let whole = prefix + joined(lines, separator);
    let start = prefix.len() as int;
    let first = lines[0];
    let cut = start + first.len();
    assert(!first.contains('\r'));
    if lines.len() == 1 {
        assert forall|j: int| start <= j < cut implies whole[j] != '\r' by {
            assert(whole[j] == first[j - start]);
        }
        lemma_find_line_end(whole, start, cut);
        assert(whole.skip(start) == first);
        assert(seq![first] == lines);
    } else {
        let rest = lines.drop_first();
        let longer = prefix + first + separator;
        lemma_joined_first(lines, separator);
        assert(whole == longer + joined(rest, separator));
        assert forall|j: int| start <= j < cut implies whole[j] != '\r' by {
            assert(whole[j] == first[j - start]);
        }
        assert(whole[cut] == separator[0] && whole[cut + 1] == separator[1]);
        lemma_find_line_end(whole, start, cut);
        assert(whole.subrange(start, cut) == first);
        assert forall|i: int| 0 <= i < rest.len() implies !(#[trigger] rest[i]).contains(
            '\r',
        ) by {
            assert(rest[i] == lines[i + 1]);
        }
        lemma_lines_after(longer, rest);
        assert(longer.len() == cut + 2);
        assert(seq![first] + rest == lines);
    }
}

/// White space parts a text into what stands on its two sides.
pub proof fn law_fields_are_parted(a: Seq<char>, c: char, b: Seq<char>)
    requires
        c == ' ' || c == '\t' || c == '\n' || c == '\u{c}' || c == '\r',
    ensures
        fields_of(a + seq![c] + b) == fields_of(a) + fields_of(b),
    decreases b.len(),
{
    let left = a + seq![c];
    if b.len() == 0 {
        assert(left + b == left);
        assert(left.drop_last() == a);
        assert(fields_of(a) + fields_of(b) == fields_of(a));
    } else {
        let whole = left + b;
        let init = b.drop_last();
        law_fields_are_parted(a, c, init);
        assert(whole.drop_last() == left + init);
        let before = fields_of(a);
        let x = b.last();
        let inner = fields_of(init);
        if !is_ascii_space(x) {
            if b.len() == 1 {
                assert(whole[whole.len() - 2] == c);
                assert(inner.len() == 0);
                assert((before + inner).push(seq![x]) == before + inner.push(seq![x]));
            } else {
                assert(whole[whole.len() - 2] == b[b.len() - 2]);
                if is_ascii_space(b[b.len() - 2]) {
                    assert((before + inner).push(seq![x]) == before + inner.push(seq![x]));
                } else {
                    lemma_fields_not_empty(init);
                    assert((before + inner).last() == inner.last());
                    assert((before + inner).drop_last().push(inner.last().push(x)) == before
                        + inner.drop_last().push(inner.last().push(x)));
                }
            }
        }
    }
}

proof fn lemma_fields_not_empty(text: Seq<char>)
    requires
        text.len() > 0,
        !is_ascii_space(text.last()),
    ensures
        fields_of(text).len() > 0,
{
}

/// A text without white space is one field, and the empty one has none.
pub proof fn law_field(word: Seq<char>)
    requires
        forall|i: int|
            0 <= i < word.len() ==> #[trigger] word[i] != ' ' && word[i] != '\t' && word[i] != '\n'
                && word[i] != '\u{c}' && word[i] != '\r',
    ensures
        word.len() > 0 ==> fields_of(word) == seq![word],
        word.len() == 0 ==> fields_of(word).len() == 0,
    decreases word.len(),
{
    if word.len() > 0 {
        let init = word.drop_last();
        law_field(init);
        assert(word[word.len() - 1] == word.last());
        if word.len() == 1 {
            assert(word == seq![word.last()]);
            assert(fields_of(init) == Seq::<Seq<char>>::empty());
            assert(fields_of(init).push(seq![word.last()]) == seq![word]);
        } else {
            assert(word[word.len() - 2] == init[init.len() - 1]);
            assert(init.push(word.last()) == word);
            assert(seq![init].drop_last().push(seq![init].last().push(word.last())) == seq![word]);
        }
    }
}

/// White space by its code points.
pub proof fn law_white_space(c: char)
    ensures
        is_space(c) <==> (9 <= c as u32 <= 13 || c as u32 == 0x20 || c as u32 == 0x85 || c as u32
            == 0xa0 || c as u32 == 0x1680 || 0x2000 <= c as u32 <= 0x200a || c as u32 == 0x2028
            || c as u32 == 0x2029 || c as u32 == 0x202f || c as u32 == 0x205f || c as u32 == 0x3000),
{
}

proof fn lemma_trimmed_start(text: Seq<char>) -> (before: Seq<char>)
    ensures
        text == before + trimmed_start(text),
        forall|i: int| 0 <= i < before.len() ==> is_space(#[trigger] before[i]),
        trimmed_start(text).len() > 0 ==> !is_space(trimmed_start(text)[0]),
    decreases text.len(),
{
    if text.len() > 0 && is_space(text[0]) {
        let before = lemma_trimmed_start(text.drop_first());
        let all = seq![text[0]] + before;
        assert(text == seq![text[0]] + text.drop_first());
        assert(text == all + trimmed_start(text));
        assert forall|i: int| 0 <= i < all.len() implies is_space(#[trigger] all[i]) by {
            if i > 0 {
                assert(all[i] == before[i - 1]);
            }
        }
        all
    } else {
        let none: Seq<char> = seq![];
        assert(text == none + text);
        none
    }
}

proof fn lemma_trimmed_end(text: Seq<char>) -> (after: Seq<char>)
    ensures
        text == trimmed_end(text) + after,
        forall|i: int| 0 <= i < after.len() ==> is_space(#[trigger] after[i]),
        trimmed_end(text).len() > 0 ==> !is_space(trimmed_end(text).last()),
        trimmed_end(text).len() > 0 ==> trimmed_end(text)[0] == text[0],
    decreases text.len(),
{
    if text.len() > 0 && is_space(text.last()) {
        let after = lemma_trimmed_end(text.drop_last());
        let all = after.push(text.last());
        assert(text == text.drop_last().push(text.last()));
        assert(text == trimmed_end(text) + all);
        all
    } else {
        let none: Seq<char> = seq![];
        assert(text == text + none);
        none
    }
}

/// Trimming takes white space off both ends, all of it and nothing else.
pub proof fn law_trimmed(text: Seq<char>) -> (ends: (Seq<char>, Seq<char>))
    ensures
        text == ends.0 + trimmed(text) + ends.1,
        forall|i: int| 0 <= i < ends.0.len() ==> is_space(#[trigger] ends.0[i]),
        forall|i: int| 0 <= i < ends.1.len() ==> is_space(#[trigger] ends.1[i]),
        trimmed(text).len() > 0 ==> !is_space(trimmed(text)[0]) && !is_space(trimmed(text).last()),
{
    let before = lemma_trimmed_start(text);
    let after = lemma_trimmed_end(trimmed_start(text));
    assert(before + (trimmed(text) + after) == before + trimmed(text) + after);
    (before, after)
}

/// Taking a character off the end takes all of its kind off, and nothing else.
pub proof fn law_without_trailing(text: Seq<char>, c: char)
    ensures
        ({
            let kept = without_trailing(text, c);
            &&& kept.len() <= text.len()
            &&& text.take(kept.len() as int) == kept
            &&& forall|i: int| kept.len() <= i < text.len() ==> text[i] == c
            &&& kept.len() > 0 ==> kept.last() != c
        }),
    decreases text.len(),
{
    if text.len() > 0 && text.last() == c {
        let init = text.drop_last();
        law_without_trailing(init, c);
        let kept = without_trailing(text, c);
        assert(text.take(kept.len() as int) == init.take(kept.len() as int));
        assert forall|i: int| kept.len() <= i < text.len() implies text[i] == c by {
            if i < init.len() {
                assert(init[i] == text[i]);
            }
        }
    } else {
        assert(text.take(text.len() as int) == text);
    }
}

/// Case is that of the letters A to Z alone.
pub proof fn law_case(c: char)
    ensures
        65 <= c as u32 <= 90 ==> ascii_lower(c) as u32 == c as u32 + 32,
        !(65 <= c as u32 <= 90) ==> ascii_lower(c) == c,
{
}

/// The number that a text of digits states.
pub open spec fn number_of(digits: Seq<char>) -> int
    decreases digits.len(),
{
    if digits.len() == 0 {
        0
    } else {
        10 * number_of(digits.drop_last()) + (digits.last() as int - 48)
    }
}

/// A number in decimal notation is made of digits, states the number, and has no
/// needless zero in front.
pub proof fn law_decimal(n: nat)
    ensures
        number_of(decimal(n)) == n,
        decimal(n).len() > 0,
        forall|i: int| 0 <= i < decimal(n).len() ==> '0' <= #[trigger] decimal(n)[i] <= '9',
        n > 0 ==> decimal(n)[0] != '0',
    decreases n,
{
    if n >= 10 {
        law_decimal(n / 10);
        let before = decimal(n / 10);
        assert(decimal(n).drop_last() == before);
        assert forall|i: int| 0 <= i < decimal(n).len() implies '0' <= #[trigger] decimal(n)[i]
            <= '9' by {
            if i < before.len() {
                assert(before[i] == decimal(n)[i]);
            }
        }
        assert(decimal(n)[0] == before[0]);
    } else {
        reveal_with_fuel(number_of, 2);
        assert(decimal(n).drop_last() == Seq::<char>::empty());
    }
}

/// Different numbers are written differently.
pub proof fn law_decimal_is_unambiguous(a: nat, b: nat)
    requires
        decimal(a) == decimal(b),
    ensures
        a == b,
{
    law_decimal(a);
    law_decimal(b);
}

/// The digits of numbers below sixteen.
pub proof fn law_hex_digits(n: int)
    requires
        0 <= n < 16,
    ensures
        n < 10 ==> lower_hex(n) as int == 48 + n && upper_hex(n) as int == 48 + n,
        n >= 10 ==> lower_hex(n) as int == 97 + (n - 10) && upper_hex(n) as int == 65 + (n - 10),
{
}

/// What stands between two texts stands, with the ends of those texts, in the
/// whole.
pub proof fn lemma_enclosed(
    before: Seq<char>,
    head: Seq<char>,
    inner: Seq<char>,
    tail: Seq<char>,
    after: Seq<char>,
    open: Seq<char>,
    close: Seq<char>,
)
    requires
        ends(head, open),
        begins(tail, close),
    ensures
        has(before + head + inner + tail + after, open + inner + close),
{
    let whole = before + head + inner + tail + after;
    let wanted = open + inner + close;
    let at = before.len() + head.len() - open.len();
    assert(whole.subrange(at, at + wanted.len()) == wanted) by {
        assert forall|i: int| 0 <= i < wanted.len() implies whole[at + i] == wanted[i] by {
            let opening = head.subrange(head.len() - open.len(), head.len() as int);
            let closing = tail.subrange(0, close.len() as int);
            if i < open.len() {
                assert(wanted[i] == opening[i]);
                assert(whole[at + i] == head[head.len() - open.len() + i]);
            } else if i < open.len() + inner.len() {
                assert(wanted[i] == inner[i - open.len()]);
                assert(whole[at + i] == inner[i - open.len()]);
            } else {
                let k = i - open.len() - inner.len();
                assert(wanted[i] == closing[k]);
                assert(whole[at + i] == tail[k]);
            }
        }
    }
    assert(occurs_at(whole, wanted, at));
}

/// What one part holds, the joined parts hold.
pub proof fn lemma_joined_has(parts: Seq<Seq<char>>, separator: Seq<char>, i: int)
    requires
        0 <= i < parts.len(),
    ensures
        has(joined(parts, separator), parts[i]),
    decreases parts.len(),
{
    let whole = joined(parts, separator);
    let none: Seq<char> = seq![];
    if parts.len() == 1 {
        assert(whole == none + parts[i] + none);
    } else if i == parts.len() - 1 {
        let before = joined(parts.drop_last(), separator) + separator;
        assert(whole == before + parts[i] + none);
    } else {
        let init = parts.drop_last();
        lemma_joined_has(init, separator, i);
        law_affixes(joined(init, separator), parts[i]);
        let (a, b) = choose|a: Seq<char>, b: Seq<char>|
            joined(init, separator) == #[trigger] (a + parts[i] + b);
        assert(whole == a + parts[i] + (b + separator + parts.last()));
    }
    law_affixes(whole, parts[i]);
}

/// What a text holds, any text that holds it holds.
pub proof fn lemma_has_within(text: Seq<char>, outer: Seq<char>, inner: Seq<char>)
    requires
        has(text, outer),
        has(outer, inner),
    ensures
        has(text, inner),
{
    let at = choose|at: int| occurs_at(text, outer, at);
    let k = choose|k: int| occurs_at(outer, inner, k);
    let n = inner.len() as int;
    assert(text.subrange(at, at + outer.len()).subrange(k, k + n) == text.subrange(
        at + k,
        at + k + n,
    ));
    assert(occurs_at(text, inner, at + k));
}

/// Two texts are the same but for case where they are empty, or where their first
/// characters are and what follows is.
pub proof fn law_same_ignoring_case(x: char, a: Seq<char>, y: char, b: Seq<char>)
    ensures
        same_ignoring_case(a, a),
        same_ignoring_case(seq![], b) <==> b.len() == 0,
        same_ignoring_case(a, seq![]) <==> a.len() == 0,
        same_ignoring_case(seq![x] + a, seq![y] + b) <==> ascii_lower(x) == ascii_lower(y)
            && same_ignoring_case(a, b),
{
    let longer = seq![x] + a;
    let other = seq![y] + b;
    assert(longer[0] == x && other[0] == y);
    if same_ignoring_case(longer, other) {
        assert forall|i: int| 0 <= i < a.len() implies ascii_lower(#[trigger] a[i]) == ascii_lower(
            b[i],
        ) by {
            assert(longer[i + 1] == a[i] && other[i + 1] == b[i]);
            assert(ascii_lower(longer[i + 1]) == ascii_lower(other[i + 1]));
        }
    }
    if ascii_lower(x) == ascii_lower(y) && same_ignoring_case(a, b) {
        assert forall|i: int| 0 <= i < longer.len() implies ascii_lower(#[trigger] longer[i])
            == ascii_lower(other[i]) by {
            if i > 0 {
                assert(longer[i] == a[i - 1] && other[i] == b[i - 1]);
            }
        }
    }
}

} // verus!
