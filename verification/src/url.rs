//! Percent-encoding of path components, and the rule for which components may
//! name something in a repository.
use vstd::prelude::*;
use vstd::utf8::*;

use crate::text;

verus! {

/// The value of a hexadecimal digit of either case.
pub open spec fn hex_number(digit: u8) -> Option<u8> {
    if 0x30 <= digit <= 0x39 {
        Some((digit - 0x30) as u8)
    } else if 0x61 <= digit <= 0x66 {
        Some((digit - 0x57) as u8)
    } else if 0x41 <= digit <= 0x46 {
        Some((digit - 0x37) as u8)
    } else {
        None
    }
}

/// The bytes with every `%` and its two digits replaced by the byte that they
/// stand for; nothing where a `%` lacks its two digits.
pub open spec fn percent_decoded(bytes: Seq<u8>) -> Option<Seq<u8>>
    decreases bytes.len(),
{
    if bytes.len() == 0 {
        Some(seq![])
    } else if bytes[0] != 0x25 {
        match percent_decoded(bytes.skip(1)) {
            Some(rest) => Some(seq![bytes[0]] + rest),
            None => None,
        }
    } else if bytes.len() < 3 {
        None
    } else {
        match (hex_number(bytes[1]), hex_number(bytes[2]), percent_decoded(bytes.skip(3))) {
            (Some(high), Some(low), Some(rest)) => Some(seq![(high * 16 + low) as u8] + rest),
            _ => None,
        }
    }
}

/// The letters, digits and marks that stand for themselves in a URL.
pub open spec fn is_unreserved(byte: u8) -> bool {
    ||| 0x30 <= byte <= 0x39
    ||| 0x41 <= byte <= 0x5a
    ||| 0x61 <= byte <= 0x7a
    ||| byte == 0x2d
    ||| byte == 0x2e
    ||| byte == 0x5f
    ||| byte == 0x7e
}

/// A byte as it stands in a URL.
pub open spec fn encoded_byte(byte: u8) -> Seq<char> {
    if is_unreserved(byte) {
        seq![byte as char]
    } else {
        seq!['%', text::upper_hex(byte as int / 16), text::upper_hex(byte as int % 16)]
    }
}

/// The bytes as they stand in a URL, one after another.
pub open spec fn percent_encoded(bytes: Seq<u8>) -> Seq<char>
    decreases bytes.len(),
{
    if bytes.len() == 0 {
        seq![]
    } else {
        encoded_byte(bytes[0]) + percent_encoded(bytes.skip(1))
    }
}

/// The characters with the Unicode category Cc.
pub open spec fn is_control(c: char) -> bool {
    c <= '\u{1f}' || '\u{7f}' <= c <= '\u{9f}'
}

/// A character that may stand in the name of a file or directory.
pub open spec fn is_name_char(c: char) -> bool {
    c != '/' && c != '\\' && c != ':' && !is_control(c)
}

/// A name that stays inside the directory that it is looked up in.
pub open spec fn is_safe(name: Seq<char>) -> bool {
    &&& name.len() > 0
    &&& name != "."@
    &&& name != ".."@
    &&& forall|i: int| 0 <= i < name.len() ==> is_name_char(#[trigger] name[i])
}

/// The name that a component of a URL path stands for, if it is a safe one.
pub open spec fn component_of(raw: Seq<char>) -> Option<Seq<char>> {
    match percent_decoded(encode_utf8(raw)) {
        Some(bytes) => if valid_utf8(bytes) && is_safe(decode_utf8(bytes)) {
            Some(decode_utf8(bytes))
        } else {
            None
        },
        None => None,
    }
}

/// The names that a URL path stands for, if all of them are safe.
pub open spec fn components_of(path: Seq<char>) -> Option<Seq<Seq<char>>> {
    let raw = text::split_at_each(path, "/"@);
    if forall|i: int| 0 <= i < raw.len() ==> component_of(#[trigger] raw[i]) is Some {
        Some(raw.map_values(|r: Seq<char>| component_of(r)->0))
    } else {
        None
    }
}

/// A name as it stands in a URL.
pub open spec fn url_form(name: Seq<char>) -> Seq<char> {
    percent_encoded(encode_utf8(name))
}

/// The names as the path of a URL.
pub open spec fn url_path(names: Seq<Seq<char>>) -> Seq<char> {
    text::joined(names.map_values(|n: Seq<char>| url_form(n)), "/"@)
}

/// The bytes of a text that is all ASCII.
spec fn low_bytes(ascii: Seq<char>) -> Seq<u8> {
    ascii.map_values(|c: char| c as u8)
}

proof fn lemma_encoded_byte(byte: u8)
    ensures
        is_ascii_chars(encoded_byte(byte)),
        is_unreserved(byte) ==> low_bytes(encoded_byte(byte)) == seq![byte] && byte != 0x25,
        !is_unreserved(byte) ==> ({
            let bytes = low_bytes(encoded_byte(byte));
            &&& bytes.len() == 3
            &&& bytes[0] == 0x25
            &&& hex_number(bytes[1]) == Some((byte / 16) as u8)
            &&& hex_number(bytes[2]) == Some((byte % 16) as u8)
        }),
{
}

proof fn lemma_percent_round_trip(bytes: Seq<u8>)
    ensures
        is_ascii_chars(percent_encoded(bytes)),
        percent_decoded(low_bytes(percent_encoded(bytes))) == Some(bytes),
    decreases bytes.len(),
{
    if bytes.len() > 0 {
        let first = encoded_byte(bytes[0]);
        let rest = percent_encoded(bytes.skip(1));
        lemma_percent_round_trip(bytes.skip(1));
        lemma_encoded_byte(bytes[0]);
        let whole = low_bytes(first + rest);
        assert(whole == low_bytes(first) + low_bytes(rest));
        assert(whole.skip(first.len() as int) == low_bytes(rest));
        assert(seq![bytes[0]] + bytes.skip(1) == bytes);
    } else {
        assert(low_bytes(percent_encoded(bytes)).len() == 0);
        assert(bytes == Seq::<u8>::empty());
    }
}

/// A safe name that was put into a URL is read back from it.
pub proof fn law_url_form_is_read_back(name: Seq<char>)
    requires
        is_safe(name),
    ensures
        component_of(url_form(name)) == Some(name),
{
    let bytes = encode_utf8(name);
    lemma_percent_round_trip(bytes);
    is_ascii_chars_encode_utf8(url_form(name));
    assert(encode_utf8(url_form(name)) == low_bytes(url_form(name)));
    encode_utf8_valid_utf8(name);
    encode_utf8_decode_utf8(name);
}

/// What a URL holds of a name is ASCII, and never a character that has a
/// meaning of its own in a URL but `%`.
pub proof fn law_url_form_is_plain(name: Seq<char>, i: int)
    requires
        0 <= i < url_form(name).len(),
    ensures
        url_form(name)[i] == '%' || exists|b: u8| is_unreserved(b) && url_form(name)[i] == b as char,
{
    lemma_percent_encoded_plain(encode_utf8(name), i);
}

proof fn lemma_percent_encoded_plain(bytes: Seq<u8>, i: int)
    requires
        0 <= i < percent_encoded(bytes).len(),
    ensures
        percent_encoded(bytes)[i] == '%' || exists|b: u8|
            is_unreserved(b) && percent_encoded(bytes)[i] == b as char,
    decreases bytes.len(),
{
    let first = encoded_byte(bytes[0]);
    if i < first.len() {
        let c = percent_encoded(bytes)[i];
        assert(c == first[i]);
        if c != '%' {
            assert(is_unreserved(c as u8) && c == c as u8 as char);
        }
    } else {
        lemma_percent_encoded_plain(bytes.skip(1), i - first.len());
    }
}

/// A path of safe names that was put into a URL is read back from it name by
/// name: what is asked of an upstream is what was asked here.
pub proof fn law_url_path_is_read_back(names: Seq<Seq<char>>)
    requires
        names.len() > 0,
        forall|i: int| 0 <= i < names.len() ==> is_safe(#[trigger] names[i]),
    ensures
        components_of(url_path(names)) == Some(names),
{
    reveal_strlit("/");
    let parts = names.map_values(|n: Seq<char>| url_form(n));
    assert("/"@ == seq!['/']);
    assert forall|i: int| 0 <= i < parts.len() implies !(#[trigger] parts[i]).contains('/') by {
        assert forall|j: int| 0 <= j < parts[i].len() implies parts[i][j] != '/' by {
            law_url_form_is_plain(names[i], j);
        }
    }
    text::lemma_split_joined(parts, '/');
    assert forall|i: int| 0 <= i < parts.len() implies component_of(#[trigger] parts[i]) == Some(
        names[i],
    ) by {
        assert(is_safe(names[i]));
        law_url_form_is_read_back(names[i]);
    }
    assert(parts.map_values(|r: Seq<char>| component_of(r)->0) == names);
}

/// Whatever a URL path says, the names that it stands for lead down only.
pub proof fn law_names_lead_down(path: Seq<char>, i: int)
    requires
        components_of(path) is Some,
        0 <= i < components_of(path)->0.len(),
    ensures
        is_safe(components_of(path)->0[i]),
{
    let raw = text::split_at_each(path, "/"@);
    assert(component_of(raw[i]) is Some);
}

/// The path of a URL holds no character that ends it.
pub proof fn law_url_path_has_no_query(names: Seq<Seq<char>>, i: int)
    requires
        0 <= i < url_path(names).len(),
    ensures
        url_path(names)[i] != '?' && url_path(names)[i] != '#',
    decreases names.len(),
{
    reveal_strlit("/");
    let parts = names.map_values(|n: Seq<char>| url_form(n));
    let init = names.drop_last();
    assert(parts.drop_last() == init.map_values(|n: Seq<char>| url_form(n)));
    let last = url_form(names.last());
    let before = url_path(names).len() - last.len();
    if i >= before {
        law_url_form_is_plain(names.last(), i - before);
        assert(url_path(names)[i] == last[i - before]);
    } else if i < url_path(init).len() {
        law_url_path_has_no_query(init, i);
    }
}

/// The value of a hexadecimal digit of either case.
pub fn hex_value(value: u8) -> (r: Option<u8>)
    ensures
        r == hex_number(value),
        r is Some ==> r->0 < 16,
{
    if 0x30 <= value && value <= 0x39 {
        Some(value - 0x30)
    } else if 0x61 <= value && value <= 0x66 {
        Some(value - 0x57)
    } else if 0x41 <= value && value <= 0x46 {
        Some(value - 0x37)
    } else {
        None
    }
}

fn percent_decode(bytes: &[u8]) -> (r: Option<Vec<u8>>)
    ensures
        match r {
            Some(decoded) => percent_decoded(bytes@) == Some(decoded@),
            None => percent_decoded(bytes@) is None,
        },
{
    let mut decoded: Vec<u8> = Vec::new();
    let mut index: usize = 0;
    assert(bytes@.skip(0) == bytes@);
    proof {
        if let Some(rest) = percent_decoded(bytes@) {
            assert(decoded@ + rest == rest);
        }
    }
    while index < bytes.len()
        invariant
            index <= bytes.len(),
            match percent_decoded(bytes@.skip(index as int)) {
                Some(rest) => percent_decoded(bytes@) == Some(decoded@ + rest),
                None => percent_decoded(bytes@) is None,
            },
        decreases bytes.len() - index,
    {
        let ghost before = decoded@;
        let ghost here = bytes@.skip(index as int);
        if bytes[index] == 0x25 {
            if bytes.len() - index < 3 {
                return None;
            }
            let high: Option<u8> = hex_value(bytes[index + 1]);
            let low: Option<u8> = hex_value(bytes[index + 2]);
            assert(here[1] == bytes@[index + 1] && here[2] == bytes@[index + 2]);
            match (high, low) {
                (Some(h), Some(l)) => {
                    decoded.push(h * 16 + l);
                    proof {
                        assert(here.skip(3) == bytes@.skip(index + 3));
                        if let Some(rest) = percent_decoded(bytes@.skip(index + 3)) {
                            assert(before + (seq![(h * 16 + l) as u8] + rest) == decoded@ + rest);
                        }
                    }
                },
                _ => {
                    return None;
                },
            }
            index = index + 3;
        } else {
            decoded.push(bytes[index]);
            proof {
                assert(here.skip(1) == bytes@.skip(index + 1));
                if let Some(rest) = percent_decoded(bytes@.skip(index + 1)) {
                    assert(before + (seq![bytes@[index as int]] + rest) == decoded@ + rest);
                }
            }
            index = index + 1;
        }
    }
    proof {
        let rest = bytes@.skip(index as int);
        assert(rest.len() == 0);
        assert(decoded@ + Seq::<u8>::empty() == decoded@);
    }
    Some(decoded)
}

fn safe_name(name: &str) -> (r: bool)
    ensures
        r == is_safe(name@),
{
    let chars = text::chars_of(name);
    if chars.len() == 0 || text::equals(name, ".") || text::equals(name, "..") {
        return false;
    }
    for i in 0..chars.len()
        invariant
            chars@ == name@,
            forall|j: int| 0 <= j < i ==> is_name_char(#[trigger] name@[j]),
    {
        let c = chars[i];
        if c == '/' || c == '\\' || c == ':' || c <= '\u{1f}' || ('\u{7f}' <= c && c <= '\u{9f}') {
            assert(!is_name_char(name@[i as int]));
            return false;
        }
    }
    true
}

fn decode_component(raw: &str) -> (r: Option<String>)
    ensures
        text::opt_view(r) == component_of(raw@),
{
    match percent_decode(raw.as_bytes()) {
        Some(bytes) => match text::string_from_utf8(bytes) {
            Some(name) => if safe_name(name.as_str()) {
                Some(name)
            } else {
                None
            },
            None => None,
        },
        None => None,
    }
}

/// The names that a URL path stands for. Nothing where an escape is malformed,
/// a name is not UTF-8, or a name could lead out of its directory.
pub fn decode_path(path: &str) -> (r: Option<Vec<String>>)
    ensures
        match r {
            Some(names) => components_of(path@) == Some(text::views(names@)),
            None => components_of(path@) is None,
        },
        r is Some ==> r->0@.len() > 0 && forall|i: int|
            0 <= i < r->0@.len() ==> is_safe(#[trigger] r->0@[i]@),
{
    proof {
        reveal_strlit("/");
    }
    let raw = text::split(path, "/");
    let ghost pieces = text::split_at_each(path@, "/"@);
    let mut names: Vec<String> = Vec::new();
    for i in 0..raw.len()
        invariant
            text::views(raw@) == pieces,
            pieces == text::split_at_each(path@, "/"@),
            names@.len() == i,
            forall|j: int|
                0 <= j < i ==> component_of(#[trigger] pieces[j]) == Some(names@[j]@),
    {
        assert(pieces[i as int] == raw@[i as int]@);
        match decode_component(raw[i].as_str()) {
            Some(name) => {
                names.push(name);
            },
            None => {
                return None;
            },
        }
    }
    proof {
        assert(text::views(names@) == pieces.map_values(|r: Seq<char>| component_of(r)->0));
        assert forall|i: int| 0 <= i < names@.len() implies is_safe(#[trigger] names@[i]@) by {
            assert(component_of(pieces[i]) is Some);
        }
    }
    Some(names)
}

/// A name as it stands in a URL: unreserved bytes as they are, any other byte
/// of its UTF-8 form as `%` and two upper-case digits.
pub fn url_encode(value: &str) -> (encoded: String)
    ensures
        encoded@ == url_form(value@),
{
    let bytes = value.as_bytes();
    let mut encoded = String::new();
    assert(bytes@.skip(0) == bytes@);
    assert(encoded@ + percent_encoded(bytes@) == percent_encoded(bytes@));
    for i in 0..bytes.len()
        invariant
            encoded@ + percent_encoded(bytes@.skip(i as int)) == percent_encoded(bytes@),
    {
        let byte: u8 = bytes[i];
        let ghost before = encoded@;
        if (0x30 <= byte && byte <= 0x39) || (0x41 <= byte && byte <= 0x5a) || (0x61 <= byte && byte
            <= 0x7a) || byte == 0x2d || byte == 0x2e || byte == 0x5f || byte == 0x7e {
            encoded.push(byte as char);
        } else {
            encoded.push('%');
            encoded.push(text::upper_hex_digit(byte / 16));
            encoded.push(text::upper_hex_digit(byte % 16));
        }
        proof {
            let rest = percent_encoded(bytes@.skip(i + 1));
            assert(bytes@.skip(i as int).skip(1) == bytes@.skip(i + 1));
            assert(encoded@ == before + encoded_byte(byte));
            assert(encoded@ + rest == before + (encoded_byte(byte) + rest));
        }
    }
    assert(bytes@.skip(bytes@.len() as int).len() == 0);
    assert(encoded@ + Seq::<char>::empty() == encoded@);
    encoded
}

/// The names as the path of a URL.
pub fn encode_path(names: &Vec<String>) -> (path: String)
    ensures
        path@ == url_path(text::views(names@)),
{
    let mut parts: Vec<String> = Vec::new();
    for i in 0..names.len()
        invariant
            parts@.len() == i,
            forall|j: int| 0 <= j < i ==> (#[trigger] parts@[j])@ == url_form(names@[j]@),
    {
        parts.push(url_encode(names[i].as_str()));
    }
    assert(text::views(parts@) == text::views(names@).map_values(|n: Seq<char>| url_form(n)));
    text::join(&parts, "/")
}

/// The names that may stand in a repository: not blank, no dots that lead
/// elsewhere, and without slashes, colons and control characters.
pub proof fn law_safe_names(name: Seq<char>)
    ensures
        is_safe(name) <==> name.len() > 0 && name != "."@ && name != ".."@ && !name.contains('/')
            && !name.contains('\\') && !name.contains(':') && forall|i: int|
            0 <= i < name.len() ==> 32 <= #[trigger] name[i] as int <= 126 || name[i] as int >= 160,
{
    if is_safe(name) {
        assert forall|i: int| 0 <= i < name.len() implies 32 <= #[trigger] name[i] as int <= 126
            || name[i] as int >= 160 by {
            lemma_control(name[i]);
            assert(is_name_char(name[i]));
        }
    }
    if name.len() > 0 && name != "."@ && name != ".."@ && !name.contains('/') && !name.contains(
        '\\',
    ) && !name.contains(':') && forall|i: int|
        0 <= i < name.len() ==> 32 <= #[trigger] name[i] as int <= 126 || name[i] as int >= 160 {
        assert forall|i: int| 0 <= i < name.len() implies is_name_char(#[trigger] name[i]) by {
            lemma_control(name[i]);
            assert(name.contains(name[i]));
        }
    }
}

proof fn lemma_control(c: char)
    ensures
        is_control(c) <==> !(32 <= c as int <= 126 || c as int >= 160),
{
}

/// The hexadecimal digits of either case, and no others.
pub proof fn law_hex_number(digit: u8)
    ensures
        48 <= digit <= 57 ==> hex_number(digit) == Some((digit - 48) as u8),
        97 <= digit <= 102 ==> hex_number(digit) == Some((digit - 97 + 10) as u8),
        65 <= digit <= 70 ==> hex_number(digit) == Some((digit - 65 + 10) as u8),
        !(48 <= digit <= 57 || 97 <= digit <= 102 || 65 <= digit <= 70) ==> hex_number(
            digit,
        ) is None,
{
}

/// Decoding goes from left to right: a byte other than `%` stands for itself,
/// and `%` with two digits for the byte that they state; any other `%` is
/// malformed.
pub proof fn law_percent_decoded(byte: u8, high: u8, low: u8, rest: Seq<u8>)
    ensures
        percent_decoded(seq![]) == Some(Seq::<u8>::empty()),
        byte != 37 ==> percent_decoded(seq![byte] + rest) == match percent_decoded(rest) {
            Some(decoded) => Some(seq![byte] + decoded),
            None => None,
        },
        percent_decoded(seq![37u8, high, low] + rest) == match (
            hex_number(high),
            hex_number(low),
            percent_decoded(rest),
        ) {
            (Some(h), Some(l), Some(decoded)) => Some(seq![(16 * h + l) as u8] + decoded),
            _ => None,
        },
        percent_decoded(seq![37u8]) is None,
        percent_decoded(seq![37u8, high]) is None,
{
    assert((seq![byte] + rest).skip(1) == rest);
    assert((seq![37u8, high, low] + rest).skip(3) == rest);
}

/// Encoding goes from left to right: letters, digits and four marks stand for
/// themselves, and any other byte is `%` and its two digits in upper case.
pub proof fn law_percent_encoded(byte: u8, rest: Seq<u8>)
    ensures
        percent_encoded(seq![]).len() == 0,
        48 <= byte <= 57 || 65 <= byte <= 90 || 97 <= byte <= 122 || byte == 45 || byte == 46
            || byte == 95 || byte == 126 ==> percent_encoded(seq![byte] + rest) == seq![
            byte as char,
        ] + percent_encoded(rest),
        !(48 <= byte <= 57 || 65 <= byte <= 90 || 97 <= byte <= 122 || byte == 45 || byte == 46
            || byte == 95 || byte == 126) ==> percent_encoded(seq![byte] + rest) == seq![
            '%',
            text::upper_hex(byte as int / 16),
            text::upper_hex(byte as int % 16),
        ] + percent_encoded(rest),
{
    assert((seq![byte] + rest).skip(1) == rest);
}

/// A component of a URL path stands for a name exactly where it decodes to the
/// bytes of that name and the name is safe.
pub proof fn law_component(raw: Seq<char>, name: Seq<char>)
    ensures
        component_of(raw) == Some(name) <==> percent_decoded(encode_utf8(raw)) == Some(
            encode_utf8(name),
        ) && is_safe(name),
{
    if component_of(raw) == Some(name) {
        let bytes = percent_decoded(encode_utf8(raw))->0;
        decode_utf8_encode_utf8(bytes);
    }
    if percent_decoded(encode_utf8(raw)) == Some(encode_utf8(name)) {
        encode_utf8_valid_utf8(name);
        encode_utf8_decode_utf8(name);
    }
}

/// A URL path stands for the names that its components stand for, one for one,
/// and for nothing where one of them stands for none.
pub proof fn law_components(raw: Seq<Seq<char>>, names: Seq<Seq<char>>)
    requires
        raw.len() > 0,
        forall|i: int| 0 <= i < raw.len() ==> !(#[trigger] raw[i]).contains('/'),
    ensures
        components_of(text::joined(raw, "/"@)) == Some(names) <==> names.len() == raw.len()
            && forall|i: int|
            0 <= i < raw.len() ==> component_of(#[trigger] raw[i]) == Some(names[i]),
{
    reveal_strlit("/");
    assert("/"@ == seq!['/']);
    text::lemma_split_joined(raw, '/');
    let found = raw.map_values(|r: Seq<char>| component_of(r)->0);
    if components_of(text::joined(raw, "/"@)) == Some(names) {
        assert(names == found);
        assert forall|i: int| 0 <= i < raw.len() implies component_of(#[trigger] raw[i]) == Some(
            names[i],
        ) by {
            assert(found[i] == component_of(raw[i])->0);
        }
    }
    if names.len() == raw.len() && forall|i: int|
        0 <= i < raw.len() ==> component_of(#[trigger] raw[i]) == Some(names[i]) {
        assert forall|i: int| 0 <= i < raw.len() implies found[i] == names[i] by {
            assert(component_of(raw[i]) == Some(names[i]));
        }
        assert(found == names);
    }
}

/// The path of a URL has one slash between the forms of each two names.
pub proof fn law_url_path(names: Seq<Seq<char>>, name: Seq<char>)
    ensures
        url_path(seq![name]) == url_form(name),
        names.len() > 0 ==> url_path(names.push(name)) == url_path(names) + "/"@ + url_form(name),
        url_form(name) == percent_encoded(encode_utf8(name)),
{
    let forms = names.map_values(|n: Seq<char>| url_form(n));
    assert(names.push(name).map_values(|n: Seq<char>| url_form(n)) == forms.push(url_form(name)));
    assert(seq![name].map_values(|n: Seq<char>| url_form(n)) == seq![url_form(name)]);
    text::law_joined(forms, url_form(name), "/"@);
}

} // verus!
