//! Paths as text, by the rules of the platform that they belong to.
//!
//! On Unix there are components between slashes, and a slash in front of an
//! absolute path. On Windows both kinds of slash part components, and a path may
//! begin with a prefix: a drive, a share, a device, or the mark of a verbatim
//! path, in which only the backslash parts components.
use vstd::prelude::*;

use crate::platform::Platform;
use crate::text;

verus! {

/// A character that parts components on Windows.
pub open spec fn is_slash(c: char) -> bool {
    c == '\\' || c == '/'
}

/// The first position, from `from` on, that holds a separator of Windows; the
/// end of the path where there is none. In a verbatim path only the backslash
/// is one.
pub open spec fn component_end(path: Seq<char>, from: int, verbatim: bool) -> int
    decreases path.len() - from,
{
    if from < 0 || from >= path.len() {
        path.len() as int
    } else if path[from] == '\\' || (!verbatim && path[from] == '/') {
        from
    } else {
        component_end(path, from + 1, verbatim)
    }
}

/// The path begins with the letter of a drive.
pub open spec fn names_drive(path: Seq<char>) -> bool {
    path.len() >= 2 && ('a' <= path[0] <= 'z' || 'A' <= path[0] <= 'Z') && path[1] == ':'
}

/// What a path on Windows may begin with.
pub ghost struct PrefixView {
    /// How long it is.
    pub len: int,
    /// It marks the path as verbatim.
    pub verbatim: bool,
    /// It is a drive, without the mark.
    pub drive: bool,
}

/// Where the prefix of a verbatim path ends: behind the server and the share of
/// a verbatim share, behind a drive that stands alone, or behind the first
/// component.
pub open spec fn verbatim_end(path: Seq<char>) -> int {
    let rest = path.skip(4);
    if rest.len() >= 4 && rest.take(3) == "UNC"@ && is_slash(rest[3]) {
        let server_end = component_end(path, 8, true);
        let share_end = component_end(path, server_end + 1, true);
        if share_end > server_end + 1 {
            share_end
        } else {
            server_end
        }
    } else if names_drive(rest) && (rest.len() == 2 || is_slash(rest[2])) {
        6
    } else {
        component_end(path, 4, true)
    }
}

/// The prefix of a path on Windows, if it has one.
pub open spec fn prefix_of(path: Seq<char>) -> Option<PrefixView> {
    if path.len() >= 2 && is_slash(path[0]) && is_slash(path[1]) {
        if text::begins(path, "\\\\?\\"@) {
            Some(PrefixView { len: verbatim_end(path), verbatim: true, drive: false })
        } else if path.len() >= 4 && path[2] == '.' && is_slash(path[3]) {
            Some(PrefixView { len: component_end(path, 4, false), verbatim: false, drive: false })
        } else {
            let server_end = component_end(path, 2, false);
            let share_end = component_end(path, server_end + 1, false);
            if server_end > 2 && share_end > server_end + 1 {
                Some(PrefixView { len: share_end, verbatim: false, drive: false })
            } else {
                None
            }
        }
    } else if names_drive(path) {
        Some(PrefixView { len: 2, verbatim: false, drive: true })
    } else {
        None
    }
}

/// The path goes on with a separator of Windows at this position.
pub open spec fn is_rooted(path: Seq<char>, at: int) -> bool {
    0 <= at < path.len() && is_slash(path[at])
}

/// The path does not depend on where it is looked at from.
pub open spec fn is_absolute_path(path: Seq<char>, platform: Platform) -> bool {
    match platform {
        Platform::Unix => text::begins(path, "/"@),
        Platform::Windows => match prefix_of(path) {
            Some(prefix) => !prefix.drive || is_rooted(path, prefix.len),
            None => false,
        },
    }
}

/// The path with backslashes only.
pub open spec fn backslashed(path: Seq<char>) -> Seq<char> {
    path.map_values(
        |c: char|
            if c == '/' {
                '\\'
            } else {
                c
            },
    )
}

/// A component of a path that leads down.
pub open spec fn leads_down(item: Seq<char>) -> bool {
    item != "."@ && item != ".."@
}

/// The pieces that are not blank.
pub open spec fn not_blank(pieces: Seq<Seq<char>>) -> Seq<Seq<char>>
    decreases pieces.len(),
{
    if pieces.len() == 0 {
        seq![]
    } else if pieces.last().len() == 0 {
        not_blank(pieces.drop_last())
    } else {
        not_blank(pieces.drop_last()).push(pieces.last())
    }
}

/// Where one gets from a place by following the pieces: two dots lead back from
/// a component that led down, and nowhere otherwise.
pub open spec fn followed(place: Seq<Seq<char>>, pieces: Seq<Seq<char>>) -> Seq<Seq<char>>
    decreases pieces.len(),
{
    if pieces.len() == 0 {
        place
    } else {
        let before = followed(place, pieces.drop_last());
        let piece = pieces.last();
        if piece.len() == 0 || piece == "."@ {
            before
        } else if piece == ".."@ {
            if before.len() > 0 && leads_down(before.last()) {
                before.drop_last()
            } else {
                before
            }
        } else {
            before.push(piece)
        }
    }
}

/// The path from a verbatim base, whose prefix ends at `end`, without dots: a
/// verbatim path is taken by the letter, so they would mean nothing in it.
pub open spec fn verbatim_from(base: Seq<char>, end: int, path: Seq<char>) -> Seq<char> {
    let rooted = is_rooted(base, end);
    let place = if is_rooted(path, 0) {
        seq![]
    } else {
        not_blank(
            text::split_at_each(
                base.skip(
                    if rooted {
                        end + 1
                    } else {
                        end
                    },
                ),
                "\\"@,
            ),
        )
    };
    let items = followed(place, text::split_at_each(backslashed(path), "\\"@));
    if rooted || is_rooted(path, 0) || items.len() > 0 {
        base.take(end) + "\\"@ + text::joined(items, "\\"@)
    } else {
        base.take(end)
    }
}

/// The path that `path` is when looked at from `base` on Windows: one with a
/// prefix stands for itself, and one that begins with a slash keeps the prefix
/// of the base only.
pub open spec fn windows_from(base: Seq<char>, path: Seq<char>) -> Seq<char> {
    if prefix_of(path) is Some {
        path
    } else {
        match prefix_of(base) {
            Some(prefix) => if prefix.verbatim && path.len() > 0 {
                verbatim_from(base, prefix.len, path)
            } else if is_rooted(path, 0) {
                base.take(prefix.len) + path
            } else if is_slash(base.last()) || (prefix.drive && base.len() == 2) {
                base + path
            } else {
                base + "\\"@ + path
            },
            None => if is_rooted(path, 0) || base.len() == 0 {
                path
            } else if is_slash(base.last()) {
                base + path
            } else {
                base + "\\"@ + path
            },
        }
    }
}

/// The path that `path` is when looked at from `base`: an absolute one is the
/// same from everywhere.
pub open spec fn path_from(base: Seq<char>, path: Seq<char>, platform: Platform) -> Seq<char> {
    match platform {
        Platform::Unix => if is_absolute_path(path, platform) {
            path
        } else if base.len() == 0 || base.last() == '/' {
            base + path
        } else {
            base + "/"@ + path
        },
        Platform::Windows => windows_from(base, path),
    }
}

/// The piece of a path is a component of it: not blank, and not a dot except
/// at the front.
pub open spec fn is_component(pieces: Seq<Seq<char>>, i: int) -> bool {
    0 <= i < pieces.len() && pieces[i].len() > 0 && (i == 0 || pieces[i] != "."@)
}

/// The pieces between the separators of a path, behind a drive where there is
/// one.
pub open spec fn pieces_of(path: Seq<char>, platform: Platform) -> Seq<Seq<char>> {
    match platform {
        Platform::Unix => text::split_at_each(path, "/"@),
        Platform::Windows => text::split_at_each(
            backslashed(
                if names_drive(path) {
                    path.skip(2)
                } else {
                    path
                },
            ),
            "\\"@,
        ),
    }
}

/// Something stands in front of the components: a drive, or a slash.
pub open spec fn has_start(path: Seq<char>, platform: Platform) -> bool {
    platform == Platform::Windows && (names_drive(path) || is_rooted(path, 0))
}

/// A path that is not absolute names a place in front of its last component.
pub open spec fn has_directory(path: Seq<char>, platform: Platform) -> bool {
    let pieces = pieces_of(path, platform);
    ||| exists|i: int, j: int|
        i < j && #[trigger] is_component(pieces, i) && #[trigger] is_component(pieces, j)
    ||| has_start(path, platform) && exists|i: int| #[trigger] is_component(pieces, i)
}

/// A path that is looked up as it stands: absolute, or a mere name.
pub open spec fn is_bare_path(path: Seq<char>, platform: Platform) -> bool {
    is_absolute_path(path, platform) || !has_directory(path, platform)
}

/// What a path on Windows may begin with.
struct Prefix {
    len: usize,
    verbatim: bool,
    drive: bool,
}

impl View for Prefix {
    type V = PrefixView;

    closed spec fn view(&self) -> PrefixView {
        PrefixView { len: self.len as int, verbatim: self.verbatim, drive: self.drive }
    }
}

fn slash(c: char) -> (r: bool)
    ensures
        r == is_slash(c),
{
    c == '\\' || c == '/'
}

fn end_of_component(chars: &Vec<char>, from: usize, verbatim: bool) -> (r: usize)
    ensures
        r == component_end(chars@, from as int, verbatim),
        r <= chars@.len(),
        from <= chars@.len() ==> from <= r,
{
    let mut at: usize = from;
    while at < chars.len()
        invariant
            from <= at,
            from <= chars@.len() ==> at <= chars@.len(),
            component_end(chars@, at as int, verbatim) == component_end(
                chars@,
                from as int,
                verbatim,
            ),
        decreases chars@.len() - at,
    {
        if chars[at] == '\\' || (!verbatim && chars[at] == '/') {
            return at;
        }
        at = at + 1;
    }
    chars.len()
}

fn drive_at(chars: &Vec<char>, from: usize) -> (r: bool)
    requires
        from <= chars@.len(),
    ensures
        r == names_drive(chars@.skip(from as int)),
{
    chars.len() - from >= 2 && (('a' <= chars[from] && chars[from] <= 'z') || ('A' <= chars[from]
        && chars[from] <= 'Z')) && chars[from + 1] == ':'
}

fn end_of_verbatim(chars: &Vec<char>) -> (r: usize)
    requires
        chars@.len() >= 4,
    ensures
        r == verbatim_end(chars@),
        r <= chars@.len(),
{
    proof {
        reveal_strlit("UNC");
    }
    let ghost rest = chars@.skip(4);
    let share: bool = chars.len() >= 8 && chars[4] == 'U' && chars[5] == 'N' && chars[6] == 'C'
        && slash(chars[7]);
    proof {
        if rest.len() >= 4 {
            if share {
                assert(rest.take(3) == "UNC"@);
            } else if rest.take(3) == "UNC"@ {
                assert(rest.take(3)[0] == 'U' && rest.take(3)[1] == 'N' && rest.take(3)[2] == 'C');
            }
        }
    }
    if share {
        let server_end: usize = end_of_component(chars, 8, true);
        if server_end == chars.len() {
            return server_end;
        }
        let share_end: usize = end_of_component(chars, server_end + 1, true);
        if share_end > server_end + 1 {
            share_end
        } else {
            server_end
        }
    } else if drive_at(chars, 4) && (chars.len() == 6 || slash(chars[6])) {
        6
    } else {
        end_of_component(chars, 4, true)
    }
}

fn find_prefix(chars: &Vec<char>) -> (r: Option<Prefix>)
    ensures
        match r {
            Some(prefix) => prefix_of(chars@) == Some(prefix@) && prefix.len <= chars@.len(),
            None => prefix_of(chars@) is None,
        },
{
    if chars.len() >= 2 && slash(chars[0]) && slash(chars[1]) {
        let verbatim: bool = chars.len() >= 4 && chars[0] == '\\' && chars[1] == '\\' && chars[2]
            == '?' && chars[3] == '\\';
        proof {
            reveal_strlit("\\\\?\\");
            if chars@.len() >= 4 {
                let start = chars@.subrange(0, 4);
                if verbatim {
                    assert(start == "\\\\?\\"@);
                } else if start == "\\\\?\\"@ {
                    assert(start[0] == '\\' && start[1] == '\\' && start[2] == '?' && start[3]
                        == '\\');
                }
            }
        }
        if verbatim {
            return Some(Prefix { len: end_of_verbatim(chars), verbatim: true, drive: false });
        }
        if chars.len() >= 4 && chars[2] == '.' && slash(chars[3]) {
            return Some(
                Prefix { len: end_of_component(chars, 4, false), verbatim: false, drive: false },
            );
        }
        let server_end: usize = end_of_component(chars, 2, false);
        if server_end > 2 && server_end < chars.len() {
            let share_end: usize = end_of_component(chars, server_end + 1, false);
            if share_end > server_end + 1 {
                return Some(Prefix { len: share_end, verbatim: false, drive: false });
            }
        }
        None
    } else {
        assert(chars@.skip(0) == chars@);
        if drive_at(chars, 0) {
            Some(Prefix { len: 2, verbatim: false, drive: true })
        } else {
            None
        }
    }
}

/// Whether a path does not depend on where it is looked at from.
pub fn is_absolute(path: &str, platform: Platform) -> (r: bool)
    ensures
        r == is_absolute_path(path@, platform),
{
    match platform {
        Platform::Unix => text::starts_with(path, "/"),
        Platform::Windows => {
            let chars = text::chars_of(path);
            match find_prefix(&chars) {
                Some(prefix) => !prefix.drive || (prefix.len < chars.len() && slash(
                    chars[prefix.len],
                )),
                None => false,
            }
        },
    }
}

fn with_backslashes(chars: &Vec<char>, from: usize) -> (r: String)
    requires
        from <= chars@.len(),
    ensures
        r@ == backslashed(chars@.skip(from as int)),
{
    let mut r = String::new();
    let ghost all = backslashed(chars@.skip(from as int));
    assert(r@ == all.take(0));
    for i in from..chars.len()
        invariant
            from <= chars@.len(),
            all == backslashed(chars@.skip(from as int)),
            r@ == all.take(i - from),
    {
        let c = chars[i];
        r.push(
            if c == '/' {
                '\\'
            } else {
                c
            },
        );
        assert(r@ == all.take(i - from + 1));
    }
    assert(all.take(all.len() as int) == all);
    r
}

fn without_blanks(pieces: &Vec<String>) -> (r: Vec<String>)
    ensures
        text::views(r@) == not_blank(text::views(pieces@)),
{
    let ghost all = text::views(pieces@);
    let mut kept: Vec<String> = Vec::new();
    assert(text::views(kept@) == not_blank(all.take(0)));
    for i in 0..pieces.len()
        invariant
            all == text::views(pieces@),
            text::views(kept@) == not_blank(all.take(i as int)),
    {
        let ghost before = text::views(kept@);
        assert(all.take(i + 1).drop_last() == all.take(i as int));
        assert(all.take(i + 1).last() == pieces@[i as int]@);
        if !pieces[i].as_str().is_empty() {
            kept.push(pieces[i].clone());
            assert(text::views(kept@) == before.push(pieces@[i as int]@));
        }
    }
    assert(all.take(all.len() as int) == all);
    kept
}

fn follow(place: Vec<String>, pieces: &Vec<String>) -> (r: Vec<String>)
    ensures
        text::views(r@) == followed(text::views(place@), text::views(pieces@)),
{
    let ghost all = text::views(pieces@);
    let ghost start = text::views(place@);
    let mut items: Vec<String> = place;
    assert(text::views(items@) == followed(start, all.take(0)));
    for i in 0..pieces.len()
        invariant
            all == text::views(pieces@),
            text::views(items@) == followed(start, all.take(i as int)),
    {
        let ghost before = text::views(items@);
        assert(all.take(i + 1).drop_last() == all.take(i as int));
        assert(all.take(i + 1).last() == pieces@[i as int]@);
        proof {
            reveal_strlit(".");
            reveal_strlit("..");
            assert("."@ != ".."@) by {
                assert("."@.len() != ".."@.len());
            }
        }
        let piece = pieces[i].as_str();
        if text::equals(piece, "..") {
            let back: bool = if items.len() > 0 {
                let last = items[items.len() - 1].as_str();
                assert(before.last() == last@);
                !text::equals(last, ".") && !text::equals(last, "..")
            } else {
                false
            };
            if back {
                let dropped = items.pop();
                assert(text::views(items@) == before.drop_last());
            }
        } else if !piece.is_empty() && !text::equals(piece, ".") {
            items.push(pieces[i].clone());
            assert(text::views(items@) == before.push(pieces@[i as int]@));
        }
    }
    assert(all.take(all.len() as int) == all);
    items
}

fn join_verbatim(base: &Vec<char>, end: usize, path: &Vec<char>) -> (r: String)
    requires
        end <= base@.len(),
    ensures
        r@ == verbatim_from(base@, end as int, path@),
{
    proof {
        reveal_strlit("\\");
    }
    let rooted: bool = end < base.len() && slash(base[end]);
    let restarted: bool = path.len() > 0 && slash(path[0]);
    let place: Vec<String> = if restarted {
        let none: Vec<String> = Vec::new();
        assert(text::views(none@) == Seq::<Seq<char>>::empty());
        none
    } else {
        let from: usize = if rooted {
            end + 1
        } else {
            end
        };
        let body = text::text_of(base, from, base.len());
        assert(body@ == base@.skip(from as int));
        without_blanks(&text::split(body.as_str(), "\\"))
    };
    let ghost start = text::views(place@);
    let slashed = with_backslashes(path, 0);
    assert(path@.skip(0) == path@);
    let items = follow(place, &text::split(slashed.as_str(), "\\"));
    let mut joined = text::text_of(base, 0, end);
    assert(joined@ == base@.take(end as int));
    if rooted || restarted || items.len() > 0 {
        joined.append("\\");
        joined.append(text::join(&items, "\\").as_str());
    }
    joined
}

fn join_windows(base: &str, path: &str) -> (r: String)
    ensures
        r@ == windows_from(base@, path@),
{
    let path_chars = text::chars_of(path);
    if find_prefix(&path_chars).is_some() {
        return path.to_string();
    }
    let chars = text::chars_of(base);
    let rooted: bool = path_chars.len() > 0 && slash(path_chars[0]);
    let mut joined = match find_prefix(&chars) {
        Some(prefix) => {
            if prefix.verbatim && path_chars.len() > 0 {
                return join_verbatim(&chars, prefix.len, &path_chars);
            }
            if rooted {
                let kept = text::text_of(&chars, 0, prefix.len);
                assert(kept@ == base@.take(prefix.len as int));
                kept
            } else if slash(chars[chars.len() - 1]) || (prefix.drive && chars.len() == 2) {
                base.to_string()
            } else {
                let mut slashed = base.to_string();
                slashed.append("\\");
                slashed
            }
        },
        None => if rooted || chars.len() == 0 {
            String::new()
        } else if slash(chars[chars.len() - 1]) {
            base.to_string()
        } else {
            let mut slashed = base.to_string();
            slashed.append("\\");
            slashed
        },
    };
    joined.append(path);
    assert(Seq::<char>::empty() + path@ == path@);
    joined
}

/// The path that `path` is when looked at from `base`.
pub fn join(base: &str, path: &str, platform: Platform) -> (r: String)
    ensures
        r@ == path_from(base@, path@, platform),
{
    if platform == Platform::Windows {
        return join_windows(base, path);
    }
    if is_absolute(path, platform) {
        return path.to_string();
    }
    proof {
        reveal_strlit("/");
        if base@.len() > 0 {
            assert(base@.subrange(base@.len() - 1, base@.len() as int) == seq![base@.last()]);
            assert(seq![base@.last()][0] == base@.last());
            assert("/"@ == seq!['/']);
            assert(seq!['/'][0] == '/');
        }
    }
    let mut joined = base.to_string();
    if !base.is_empty() && !text::ends_with(base, "/") {
        joined.append("/");
    }
    joined.append(path);
    joined
}

/// Whether a path that is not absolute names a place in front of its last
/// component.
pub fn names_directory(path: &str, platform: Platform) -> (r: bool)
    ensures
        r == has_directory(path@, platform),
{
    proof {
        reveal_strlit("/");
        reveal_strlit("\\");
    }
    let chars = text::chars_of(path);
    assert(chars@.skip(0) == chars@);
    let windows: bool = platform == Platform::Windows;
    let drive: bool = windows && drive_at(&chars, 0);
    let start: bool = drive || (windows && chars.len() > 0 && slash(chars[0]));
    let parts = if drive {
        text::split(with_backslashes(&chars, 2).as_str(), "\\")
    } else if windows {
        text::split(with_backslashes(&chars, 0).as_str(), "\\")
    } else {
        text::split(path, "/")
    };
    let ghost pieces = pieces_of(path@, platform);
    let mut found: bool = start;
    for i in 0..parts.len()
        invariant
            text::views(parts@) == pieces,
            pieces == pieces_of(path@, platform),
            start == has_start(path@, platform),
            found == (start || exists|k: int| k < i && #[trigger] is_component(pieces, k)),
            forall|k: int, l: int|
                k < l < i && #[trigger] is_component(pieces, k) ==> !#[trigger] is_component(
                    pieces,
                    l,
                ),
            start ==> forall|k: int| k < i ==> !#[trigger] is_component(pieces, k),
    {
        assert(pieces[i as int] == parts@[i as int]@);
        if !parts[i].as_str().is_empty() && (i == 0 || !text::equals(parts[i].as_str(), ".")) {
            assert(is_component(pieces, i as int));
            if found {
                return true;
            }
            found = true;
        } else {
            assert(!is_component(pieces, i as int));
        }
    }
    assert(pieces.len() == parts@.len());
    false
}

/// Whether a path is looked up as it stands: absolute, or a mere name.
pub fn is_bare(path: &str, platform: Platform) -> (r: bool)
    ensures
        r == is_bare_path(path@, platform),
{
    is_absolute(path, platform) || !names_directory(path, platform)
}

/// An absolute path is the same from everywhere.
pub proof fn law_absolute_path_stands(base: Seq<char>, path: Seq<char>, platform: Platform)
    requires
        is_absolute_path(path, platform),
    ensures
        path_from(base, path, platform) == path,
{
}

/// On Unix a path is absolute where it begins with a slash; any other is put
/// behind the base, with one slash between them where the base is not empty and
/// has none at its end.
pub proof fn law_unix_paths(base: Seq<char>, path: Seq<char>)
    ensures
        is_absolute_path(path, Platform::Unix) <==> path.len() > 0 && path[0] == '/',
        path.len() > 0 && path[0] == '/' ==> path_from(base, path, Platform::Unix) == path,
        path.len() == 0 || path[0] != '/' ==> {
            &&& path_from(seq![], path, Platform::Unix) == path
            &&& path_from(base.push('/'), path, Platform::Unix) == base + "/"@ + path
            &&& base.len() > 0 && base.last() != '/' ==> path_from(base, path, Platform::Unix)
                == base + "/"@ + path
        },
{
    reveal_strlit("/");
    let empty: Seq<char> = seq![];
    assert("/"@ == seq!['/']);
    if path.len() > 0 {
        assert(path.subrange(0, 1)[0] == path[0]);
        if path[0] == '/' {
            assert(path.subrange(0, 1) == "/"@);
        }
    }
    assert(empty + path == path);
    assert(base.push('/') == base + "/"@);
}

proof fn lemma_component_end(path: Seq<char>, from: int, verbatim: bool, end: int)
    requires
        0 <= from <= end <= path.len(),
        forall|i: int| from <= i < end ==> path[i] != '\\' && (verbatim || path[i] != '/'),
        end < path.len() ==> path[end] == '\\' || (!verbatim && path[end] == '/'),
    ensures
        component_end(path, from, verbatim) == end,
    decreases end - from,
{
    if from < end {
        lemma_component_end(path, from + 1, verbatim, end);
    }
}

/// A component ends at the first separator from where it begins, or at the end
/// of the path.
pub proof fn law_component_end(path: Seq<char>, from: int, verbatim: bool)
    requires
        0 <= from <= path.len(),
    ensures
        ({
            let end = component_end(path, from, verbatim);
            &&& from <= end <= path.len()
            &&& end < path.len() ==> path[end] == '\\' || (!verbatim && path[end] == '/')
            &&& forall|i: int|
                from <= i < end ==> path[i] != '\\' && (verbatim || path[i] != '/')
        }),
    decreases path.len() - from,
{
    if from < path.len() && path[from] != '\\' && (verbatim || path[from] != '/') {
        law_component_end(path, from + 1, verbatim);
    }
}

/// A path on Windows begins with a drive exactly where it begins with a letter
/// of the alphabet and a colon.
pub proof fn law_drive(path: Seq<char>)
    ensures
        prefix_of(path) == Some(PrefixView { len: 2, verbatim: false, drive: true }) <==> path.len()
            >= 2 && path[1] == ':' && (97 <= path[0] as int <= 122 || 65 <= path[0] as int <= 90),
        prefix_of(path) matches Some(prefix) ==> (prefix.drive ==> prefix.len == 2
            && !prefix.verbatim),
{
}

/// The prefix of a path on Windows that names a share is the server and the
/// share, behind two slashes and with one between them.
pub proof fn law_share(path: Seq<char>, server_end: int, share_end: int)
    requires
        2 < server_end,
        server_end + 1 < share_end <= path.len(),
        path[0] == '\\' || path[0] == '/',
        path[1] == '\\' || path[1] == '/',
        forall|i: int| 2 <= i < server_end ==> path[i] != '\\' && path[i] != '/',
        path[server_end] == '\\' || path[server_end] == '/',
        forall|i: int| server_end < i < share_end ==> path[i] != '\\' && path[i] != '/',
        share_end < path.len() ==> path[share_end] == '\\' || path[share_end] == '/',
        !(text::begins(path, "\\\\?\\"@)),
        !(path[2] == '.' && server_end == 3),
    ensures
        prefix_of(path) == Some(PrefixView { len: share_end, verbatim: false, drive: false }),
        is_absolute_path(path, Platform::Windows),
{
    lemma_component_end(path, 2, false, server_end);
    lemma_component_end(path, server_end + 1, false, share_end);
}

/// The prefix of a path on Windows that names a device is its first component,
/// behind two slashes, a dot and a slash.
pub proof fn law_device(path: Seq<char>, end: int)
    requires
        4 <= end <= path.len(),
        path[0] == '\\' || path[0] == '/',
        path[1] == '\\' || path[1] == '/',
        path[2] == '.',
        path[3] == '\\' || path[3] == '/',
        forall|i: int| 4 <= i < end ==> path[i] != '\\' && path[i] != '/',
        end < path.len() ==> path[end] == '\\' || path[end] == '/',
    ensures
        prefix_of(path) == Some(PrefixView { len: end, verbatim: false, drive: false }),
        is_absolute_path(path, Platform::Windows),
{
    reveal_strlit("\\\\?\\");
    assert("\\\\?\\"@[2] == '?');
    assert(path.subrange(0, 4)[2] == '.');
    lemma_component_end(path, 4, false, end);
}

/// A path on Windows is verbatim exactly where it begins with two backslashes, a
/// question mark and a backslash, and then it is absolute.
pub proof fn law_verbatim(path: Seq<char>)
    ensures
        (prefix_of(path) matches Some(prefix) && prefix.verbatim) <==> path.len() >= 4 && path[0]
            == '\\' && path[1] == '\\' && path[2] == '?' && path[3] == '\\',
        prefix_of(path) matches Some(prefix) ==> (prefix.verbatim ==> is_absolute_path(
            path,
            Platform::Windows,
        )),
{
    reveal_strlit("\\\\?\\");
    let mark = "\\\\?\\"@;
    assert(mark.len() == 4);
    if path.len() >= 4 {
        let start = path.subrange(0, 4);
        if path[0] == '\\' && path[1] == '\\' && path[2] == '?' && path[3] == '\\' {
            assert(start == mark);
        }
        if start == mark {
            assert(start[0] == '\\' && start[1] == '\\' && start[2] == '?' && start[3] == '\\');
        }
    }
}

proof fn lemma_verbatim_mark(rest: Seq<char>)
    ensures
        text::begins("\\\\?\\"@ + rest, "\\\\?\\"@),
        ("\\\\?\\"@ + rest).len() == rest.len() + 4,
        ("\\\\?\\"@ + rest)[0] == '\\',
        ("\\\\?\\"@ + rest)[1] == '\\',
        ("\\\\?\\"@ + rest).skip(4) == rest,
        forall|i: int| 0 <= i < rest.len() ==> rest[i] == #[trigger] ("\\\\?\\"@ + rest)[i + 4],
{
    reveal_strlit("\\\\?\\");
    let path = "\\\\?\\"@ + rest;
    assert(path.subrange(0, 4) == "\\\\?\\"@);
    assert(path.skip(4) == rest);
}

/// The prefix of a verbatim path with a drive is the mark and the drive.
pub proof fn law_verbatim_drive(letter: char, rest: Seq<char>)
    requires
        97 <= letter as int <= 122 || 65 <= letter as int <= 90,
        rest.len() > 0 ==> rest[0] == '\\' || rest[0] == '/',
    ensures
        prefix_of("\\\\?\\"@ + (seq![letter, ':'] + rest)) == Some(
            PrefixView { len: 6, verbatim: true, drive: false },
        ),
{
    reveal_strlit("UNC");
    let body = seq![letter, ':'] + rest;
    lemma_verbatim_mark(body);
    assert(body[1] == ':');
    if body.len() >= 4 && body.take(3) == "UNC"@ {
        assert(body.take(3)[1] == 'N');
    }
    if rest.len() > 0 {
        assert(body[2] == rest[0]);
    }
}

/// The prefix of a verbatim path with a share is the mark, `UNC`, the server and
/// the share.
pub proof fn law_verbatim_share(server: Seq<char>, share: Seq<char>, rest: Seq<char>)
    requires
        share.len() > 0,
        !server.contains('\\'),
        !share.contains('\\'),
        rest.len() > 0 ==> rest[0] == '\\',
    ensures
        prefix_of("\\\\?\\"@ + ("UNC\\"@ + server + "\\"@ + share + rest)) == Some(
            PrefixView { len: 9int + server.len() + share.len(), verbatim: true, drive: false },
        ),
{
    reveal_strlit("UNC");
    reveal_strlit("UNC\\");
    reveal_strlit("\\");
    let body = "UNC\\"@ + server + "\\"@ + share + rest;
    let path = "\\\\?\\"@ + body;
    lemma_verbatim_mark(body);
    assert(body.take(3) == "UNC"@);
    assert(body[3] == '\\');
    let n = server.len() as int;
    let m = share.len() as int;
    assert forall|i: int| 8 <= i < 8 + n implies path[i] != '\\' by {
        assert(body[i - 4] == path[i - 4 + 4]);
        assert(body[i - 4] == server[i - 8]);
        assert(server.contains(server[i - 8]));
    }
    assert(body[4 + n] == path[4 + n + 4]);
    assert(body[4 + n] == '\\');
    lemma_component_end(path, 8, true, 8 + n);
    assert forall|i: int| 9 + n <= i < 9 + n + m implies path[i] != '\\' by {
        assert(body[i - 4] == path[i - 4 + 4]);
        assert(body[i - 4] == share[i - 9 - n]);
        assert(share.contains(share[i - 9 - n]));
    }
    if rest.len() > 0 {
        assert(body[5 + n + m] == path[5 + n + m + 4]);
        assert(body[5 + n + m] == rest[0]);
    }
    lemma_component_end(path, 9 + n, true, 9 + n + m);
}

/// Where the share of a verbatim path is missing, the prefix ends with the
/// server.
pub proof fn law_verbatim_server(server: Seq<char>, rest: Seq<char>)
    requires
        !server.contains('\\'),
        rest.len() > 0 ==> rest[0] == '\\',
        rest.len() > 1 ==> rest[1] == '\\',
    ensures
        prefix_of("\\\\?\\"@ + ("UNC\\"@ + server + rest)) == Some(
            PrefixView { len: 8int + server.len(), verbatim: true, drive: false },
        ),
{
    reveal_strlit("UNC");
    reveal_strlit("UNC\\");
    let body = "UNC\\"@ + server + rest;
    let path = "\\\\?\\"@ + body;
    lemma_verbatim_mark(body);
    assert(body.take(3) == "UNC"@);
    assert(body[3] == '\\');
    let n = server.len() as int;
    assert forall|i: int| 8 <= i < 8 + n implies path[i] != '\\' by {
        assert(body[i - 4] == path[i - 4 + 4]);
        assert(body[i - 4] == server[i - 8]);
        assert(server.contains(server[i - 8]));
    }
    if rest.len() > 0 {
        assert(body[4 + n] == path[4 + n + 4]);
        assert(body[4 + n] == rest[0]);
    }
    lemma_component_end(path, 8, true, 8 + n);
    if rest.len() > 1 {
        assert(body[5 + n] == path[5 + n + 4]);
        assert(body[5 + n] == rest[1]);
    }
    if rest.len() > 0 {
        lemma_component_end(path, 9 + n, true, 9 + n);
    }
}

/// The prefix of any other verbatim path is the mark and the first component.
pub proof fn law_verbatim_name(name: Seq<char>, rest: Seq<char>)
    requires
        !name.contains('\\'),
        rest.len() > 0 ==> rest[0] == '\\',
        name != "UNC"@,
        !(text::begins(name, "UNC/"@)),
        !(name.len() >= 2 && name[1] == ':'),
    ensures
        prefix_of("\\\\?\\"@ + (name + rest)) == Some(
            PrefixView { len: 4int + name.len(), verbatim: true, drive: false },
        ),
{
    reveal_strlit("UNC");
    reveal_strlit("UNC/");
    let body = name + rest;
    let path = "\\\\?\\"@ + body;
    lemma_verbatim_mark(body);
    let n = name.len() as int;
    assert forall|i: int| 0 <= i < n implies name[i] != '\\' by {
        assert(name.contains(name[i]));
    }
    if body.len() >= 4 && body.take(3) == "UNC"@ {
        let start = body.take(3);
        assert(start[0] == 'U' && start[1] == 'N' && start[2] == 'C');
        assert(body[0] == 'U' && body[1] == 'N' && body[2] == 'C');
        if n < 3 {
            assert(body[n] == rest[0]);
        } else if n == 3 {
            assert(name == "UNC"@);
        } else {
            assert(body[3] == name[3]);
            if name[3] == '/' {
                assert(name.subrange(0, 4) == "UNC/"@);
            }
        }
    }
    if names_drive(body) {
        if n < 2 {
            assert(body[n] == rest[0]);
        } else {
            assert(body[1] == name[1]);
        }
    }
    assert forall|i: int| 4 <= i < 4 + n implies path[i] != '\\' by {
        assert(body[i - 4] == path[i - 4 + 4]);
        assert(body[i - 4] == name[i - 4]);
    }
    if rest.len() > 0 {
        assert(body[n] == path[n + 4]);
        assert(body[n] == rest[0]);
    }
    lemma_component_end(path, 4, true, 4 + n);
}

/// Two slashes and a server without a share are no prefix on Windows.
pub proof fn law_server_alone(path: Seq<char>, server_end: int)
    requires
        2 < server_end < path.len(),
        path[0] == '\\' || path[0] == '/',
        path[1] == '\\' || path[1] == '/',
        forall|i: int| 2 <= i < server_end ==> path[i] != '\\' && path[i] != '/',
        path[server_end] == '\\' || path[server_end] == '/',
        server_end + 1 < path.len() ==> path[server_end + 1] == '\\' || path[server_end + 1] == '/',
        path[2] != '.' && path[2] != '?' || server_end > 3,
    ensures
        prefix_of(path) is None,
        !is_absolute_path(path, Platform::Windows),
{
    reveal_strlit("\\\\?\\");
    let mark = "\\\\?\\"@;
    assert(mark[2] == '?' && mark[3] == '\\');
    if path.len() >= 4 && path.subrange(0, 4) == mark {
        assert(path.subrange(0, 4)[2] == path[2]);
        assert(path.subrange(0, 4)[3] == path[3]);
    }
    lemma_component_end(path, 2, false, server_end);
    lemma_component_end(path, server_end + 1, false, server_end + 1);
}

/// A path on Windows that begins with no drive, and not with two slashes, has no
/// prefix and is not absolute; neither does one with two slashes that lacks a
/// server or a share.
pub proof fn law_no_prefix(path: Seq<char>)
    ensures
        !(path.len() >= 2 && path[1] == ':') && !(path.len() >= 2 && is_slash(path[0]) && is_slash(
            path[1],
        )) ==> prefix_of(path) is None && !is_absolute_path(path, Platform::Windows),
        path.len() >= 2 && is_slash(path[0]) && is_slash(path[1]) && (path.len() == 2 || is_slash(
            path[2],
        )) ==> prefix_of(path) is None && !is_absolute_path(path, Platform::Windows),
        path.len() > 2 && is_slash(path[0]) && is_slash(path[1]) && (forall|i: int|
            2 <= i < path.len() ==> !is_slash(path[i])) ==> prefix_of(path) is None
            && !is_absolute_path(path, Platform::Windows),
        is_slash('\\') && is_slash('/'),
{
    reveal_strlit("\\\\?\\");
    let mark = "\\\\?\\"@;
    assert(mark[2] == '?' && mark[3] == '\\');
    if path.len() >= 4 && path.subrange(0, 4) == mark {
        assert(path.subrange(0, 4)[2] == path[2]);
        assert(path.subrange(0, 4)[3] == path[3]);
    }
    if path.len() > 2 && forall|i: int| 2 <= i < path.len() ==> !is_slash(path[i]) {
        assert forall|i: int| 2 <= i < path.len() implies path[i] != '\\' && path[i] != '/' by {
            assert(!is_slash(path[i]));
        }
        lemma_component_end(path, 2, false, path.len() as int);
    }
}

/// A path on Windows with a drive is absolute where a slash follows the drive,
/// and one with any other prefix always is.
pub proof fn law_windows_absolute(path: Seq<char>)
    ensures
        path.len() >= 2 && path[1] == ':' ==> (is_absolute_path(path, Platform::Windows)
            <==> path.len() > 2 && (path[2] == '\\' || path[2] == '/') && (97 <= path[0] as int
            <= 122 || 65 <= path[0] as int <= 90)),
        is_absolute_path(path, Platform::Windows) ==> prefix_of(path) is Some,
        prefix_of(path) matches Some(prefix) ==> (!prefix.drive ==> is_absolute_path(
            path,
            Platform::Windows,
        )),
{
}

/// A path on Windows with a prefix stands for itself. One that begins with a
/// slash stands behind the prefix of the base, and any other behind the whole
/// base, with a backslash between them where the base has no slash at its end
/// and is more than a drive. A verbatim base follows rules of its own.
pub proof fn law_windows_paths(base: Seq<char>, path: Seq<char>)
    ensures
        prefix_of(path) is Some ==> path_from(base, path, Platform::Windows) == path,
        prefix_of(path) is None && path.len() > 0 && (path[0] == '\\' || path[0] == '/') ==> {
            &&& prefix_of(base) is None ==> path_from(base, path, Platform::Windows) == path
            &&& prefix_of(base) matches Some(prefix) ==> (!prefix.verbatim ==> path_from(
                base,
                path,
                Platform::Windows,
            ) == base.take(prefix.len) + path)
        },
        prefix_of(path) is None && (path.len() == 0 || (path[0] != '\\' && path[0] != '/')) && !(
        prefix_of(base) matches Some(prefix) && prefix.verbatim) ==> {
            &&& base.len() == 0 ==> path_from(base, path, Platform::Windows) == path
            &&& base.len() > 0 && (base.last() == '\\' || base.last() == '/') ==> path_from(
                base,
                path,
                Platform::Windows,
            ) == base + path
            &&& base.len() > 0 && base.last() != '\\' && base.last() != '/' && !(base.len() == 2
                && base[1] == ':' && (97 <= base[0] as int <= 122 || 65 <= base[0] as int <= 90))
                ==> path_from(base, path, Platform::Windows) == base + "\\"@ + path
            &&& base.len() == 2 && base[1] == ':' && (97 <= base[0] as int <= 122 || 65
                <= base[0] as int <= 90) ==> path_from(base, path, Platform::Windows) == base + path
        },
{
    law_drive(base);
}

/// The empty path, looked at from a place on Windows, is the place with a slash
/// at its end, unless the place is a mere drive.
pub proof fn law_windows_empty_path(base: Seq<char>)
    requires
        base.len() > 0,
    ensures
        base.last() == '\\' || base.last() == '/' ==> path_from(base, seq![], Platform::Windows)
            == base,
        base.last() != '\\' && base.last() != '/' && !(base.len() == 2 && base[1] == ':') ==> path_from(
            base,
            seq![],
            Platform::Windows,
        ) == base + "\\"@,
{
    let empty: Seq<char> = seq![];
    assert(base + empty == base);
    assert(base + "\\"@ + empty == base + "\\"@);
}

/// Both kinds of slash become a backslash, and nothing else changes.
pub proof fn law_backslashed(path: Seq<char>)
    ensures
        backslashed(path).len() == path.len(),
        forall|i: int|
            0 <= i < path.len() ==> #[trigger] backslashed(path)[i] == if path[i] == '/' {
                '\\'
            } else {
                path[i]
            },
{
}

/// Blank pieces are left out, and the others stay in their order.
pub proof fn law_not_blank(pieces: Seq<Seq<char>>, piece: Seq<char>)
    ensures
        not_blank(seq![]).len() == 0,
        not_blank(pieces.push(seq![])) == not_blank(pieces),
        piece.len() > 0 ==> not_blank(pieces.push(piece)) == not_blank(pieces).push(piece),
{
    let blank: Seq<char> = seq![];
    assert(pieces.push(piece).drop_last() == pieces);
    assert(pieces.push(blank).drop_last() == pieces);
}

/// What following one more piece does: a blank one and a dot lead nowhere, two
/// dots lead back over a component that led down, and any other piece leads down.
pub proof fn law_followed(place: Seq<Seq<char>>, pieces: Seq<Seq<char>>, piece: Seq<char>)
    ensures
        followed(place, seq![]) == place,
        followed(place, pieces.push(seq![])) == followed(place, pieces),
        followed(place, pieces.push("."@)) == followed(place, pieces),
        piece.len() > 0 && piece != "."@ && piece != ".."@ ==> {
            &&& followed(place, pieces.push(piece)) == followed(place, pieces).push(piece)
            &&& followed(place, pieces.push(piece).push(".."@)) == followed(place, pieces)
        },
        followed(seq![], seq![".."@]) == Seq::<Seq<char>>::empty(),
        place.len() > 0 && (place.last() == "."@ || place.last() == ".."@) ==> followed(
            place,
            seq![".."@],
        ) == place,
{
    reveal_strlit(".");
    reveal_strlit("..");
    let blank: Seq<char> = seq![];
    let none: Seq<Seq<char>> = seq![];
    assert(".".view().len() == 1 && "..".view().len() == 2);
    assert(pieces.push(blank).drop_last() == pieces);
    assert(pieces.push("."@).drop_last() == pieces);
    assert(pieces.push(piece).drop_last() == pieces);
    assert(pieces.push(piece).push(".."@).drop_last() == pieces.push(piece));
    if piece.len() > 0 && piece != "."@ && piece != ".."@ {
        let down = followed(place, pieces).push(piece);
        assert(followed(place, pieces.push(piece)) == down);
        assert(down.last() == piece);
        assert(down.drop_last() == followed(place, pieces));
        assert("."@ != ".."@);
        assert(followed(place, pieces.push(piece).push(".."@)) == down.drop_last());
    }
    assert(seq![".."@].drop_last() == none);
    assert(followed(none, none) == none);
    assert(followed(place, none) == place);
}

proof fn lemma_no_slash(path: Seq<char>)
    requires
        !path.contains('/'),
    ensures
        backslashed(path) == path,
{
    assert forall|i: int| 0 <= i < path.len() implies backslashed(path)[i] == path[i] by {
        assert(path.contains(path[i]));
    }
}

proof fn lemma_not_blank_kept(pieces: Seq<Seq<char>>)
    requires
        forall|i: int| 0 <= i < pieces.len() ==> (#[trigger] pieces[i]).len() > 0,
    ensures
        not_blank(pieces) == pieces,
    decreases pieces.len(),
{
    if pieces.len() > 0 {
        let init = pieces.drop_last();
        assert(pieces[pieces.len() - 1].len() > 0);
        assert forall|i: int| 0 <= i < init.len() implies (#[trigger] init[i]).len() > 0 by {
            assert(init[i] == pieces[i]);
        }
        lemma_not_blank_kept(init);
        assert(init.push(pieces.last()) == pieces);
    }
}

/// From a verbatim base one gets to where the components of the base lead,
/// followed by the pieces of the path; a path that begins with a slash is
/// followed from the root of the base.
pub proof fn law_verbatim_base(
    prefix: Seq<char>,
    items: Seq<Seq<char>>,
    pieces: Seq<Seq<char>>,
)
    requires
        prefix_of(prefix + "\\"@ + text::joined(items, "\\"@)) == Some(
            PrefixView { len: prefix.len() as int, verbatim: true, drive: false },
        ),
        items.len() > 0,
        forall|i: int|
            0 <= i < items.len() ==> (#[trigger] items[i]).len() > 0 && !items[i].contains('\\'),
        pieces.len() > 0,
        forall|i: int| 0 <= i < pieces.len() ==> !(#[trigger] pieces[i]).contains('\\'),
        !text::joined(pieces, "\\"@).contains('/'),
        pieces[0].len() > 0,
        prefix_of(text::joined(pieces, "\\"@)) is None,
        prefix_of("\\"@ + text::joined(pieces, "\\"@)) is None,
    ensures
        path_from(
            prefix + "\\"@ + text::joined(items, "\\"@),
            text::joined(pieces, "\\"@),
            Platform::Windows,
        ) == prefix + "\\"@ + text::joined(followed(items, pieces), "\\"@),
        path_from(
            prefix + "\\"@ + text::joined(items, "\\"@),
            "\\"@ + text::joined(pieces, "\\"@),
            Platform::Windows,
        ) == prefix + "\\"@ + text::joined(
            followed(seq![], seq![Seq::<char>::empty()] + pieces),
            "\\"@,
        ),
{
    reveal_strlit("\\");
    let slash = "\\"@;
    assert(slash == seq!['\\']);
    let end = prefix.len() as int;
    let body = text::joined(items, slash);
    let base = prefix + slash + body;
    let path = text::joined(pieces, slash);
    assert(base[end] == '\\');
    assert(base.take(end) == prefix);
    assert(base.skip(end + 1) == body);
    text::lemma_split_joined(items, '\\');
    lemma_not_blank_kept(items);
    lemma_no_slash(path);
    text::lemma_split_joined(pieces, '\\');
    if pieces.len() > 1 {
        text::lemma_joined_first(pieces, slash);
    }
    assert(path.len() > 0 && path[0] == pieces[0][0]);
    assert(pieces[0].contains(pieces[0][0]));
    assert(path.contains(path[0]));
    assert(!is_rooted(path, 0));
    let empty: Seq<char> = seq![];
    let whole = seq![empty] + pieces;
    let rooted = slash + path;
    text::lemma_joined_first(whole, slash);
    assert(whole.drop_first() == pieces);
    assert(empty + slash + path == rooted);
    assert(text::joined(whole, slash) == rooted);
    assert forall|i: int| 0 <= i < whole.len() implies !(#[trigger] whole[i]).contains('\\') by {
        if i > 0 {
            assert(whole[i] == pieces[i - 1]);
        }
    }
    text::lemma_split_joined(whole, '\\');
    assert(!rooted.contains('/')) by {
        if rooted.contains('/') {
            let i = rooted.index_of('/');
            if i > 0 {
                assert(rooted[i] == path[i - 1]);
                assert(path.contains(path[i - 1]));
            }
        }
    }
    lemma_no_slash(rooted);
    assert(is_rooted(rooted, 0));
}

/// From a verbatim base that is a mere prefix, one gets to where the pieces of
/// the path lead, behind a backslash, and stays where they lead nowhere; from its
/// root, the backslash stays.
pub proof fn law_verbatim_prefix_base(prefix: Seq<char>, pieces: Seq<Seq<char>>)
    requires
        prefix_of(prefix) == Some(
            PrefixView { len: prefix.len() as int, verbatim: true, drive: false },
        ),
        prefix_of(prefix + "\\"@) == prefix_of(prefix),
        pieces.len() > 0,
        forall|i: int| 0 <= i < pieces.len() ==> !(#[trigger] pieces[i]).contains('\\'),
        !text::joined(pieces, "\\"@).contains('/'),
        pieces[0].len() > 0,
        prefix_of(text::joined(pieces, "\\"@)) is None,
    ensures
        path_from(prefix, text::joined(pieces, "\\"@), Platform::Windows) == if followed(
            seq![],
            pieces,
        ).len() == 0 {
            prefix
        } else {
            prefix + "\\"@ + text::joined(followed(seq![], pieces), "\\"@)
        },
        path_from(prefix + "\\"@, text::joined(pieces, "\\"@), Platform::Windows) == prefix
            + "\\"@ + text::joined(followed(seq![], pieces), "\\"@),
        path_from(prefix, "\\"@, Platform::Windows) == prefix + "\\"@,
{
    reveal_strlit("\\");
    let slash = "\\"@;
    assert(slash == seq!['\\']);
    let end = prefix.len() as int;
    let path = text::joined(pieces, slash);
    let empty: Seq<char> = seq![];
    let none: Seq<Seq<char>> = seq![];
    lemma_no_slash(path);
    text::lemma_split_joined(pieces, '\\');
    if pieces.len() > 1 {
        text::lemma_joined_first(pieces, slash);
    }
    assert(path.len() > 0 && path[0] == pieces[0][0]);
    assert(pieces[0].contains(pieces[0][0]));
    assert(path.contains(path[0]));
    assert(!is_rooted(path, 0));
    text::lemma_split_joined(seq![empty], '\\');
    assert(text::split_at_each(empty, slash) == seq![empty]);
    assert(seq![empty].drop_last() == none);
    assert(not_blank(none) == none);
    assert(seq![empty].last().len() == 0);
    assert(not_blank(seq![empty]) == none);
    assert(prefix.skip(end) == empty);
    assert(prefix.take(end) == prefix);
    let rooted = prefix + slash;
    assert(rooted[end] == '\\');
    assert(rooted.take(end) == prefix);
    assert(rooted.skip(end + 1) == empty);
    lemma_no_slash(slash);
    let blanks = seq![empty, empty];
    assert(text::joined(blanks, slash) == slash) by {
        assert(blanks.drop_last() == seq![empty]);
        assert(empty + slash + empty == slash);
    }
    text::lemma_split_joined(blanks, '\\');
    assert(blanks.drop_last() == seq![empty]);
    assert(followed(none, none) == none);
    assert(followed(none, seq![empty]) == none);
    assert(followed(none, blanks) == none);
    assert(prefix + slash + empty == prefix + slash);
}

/// Which paths name a place in front of their last component, over the pieces
/// between the slashes: those with two pieces that count, where a blank piece
/// does not, and a dot only in front.
pub proof fn law_directory(pieces: Seq<Seq<char>>)
    requires
        pieces.len() > 0,
        forall|i: int| 0 <= i < pieces.len() ==> !(#[trigger] pieces[i]).contains('/'),
    ensures
        has_directory(text::joined(pieces, "/"@), Platform::Unix) <==> exists|i: int, j: int|
            0 <= i < j < pieces.len() && (#[trigger] pieces[i]).len() > 0 && (#[trigger] pieces[j]).len()
                > 0 && (i == 0 || pieces[i] != "."@) && pieces[j] != "."@,
{
    reveal_strlit("/");
    assert("/"@ == seq!['/']);
    let path = text::joined(pieces, "/"@);
    text::lemma_split_joined(pieces, '/');
    assert(pieces_of(path, Platform::Unix) == pieces);
    lemma_components(pieces);
}

/// On Windows too, where the slashes may be of either kind; a slash in front, or
/// a drive, is a place of its own.
pub proof fn law_windows_directory(pieces: Seq<Seq<char>>, path: Seq<char>)
    requires
        pieces.len() > 0,
        forall|i: int| 0 <= i < pieces.len() ==> !(#[trigger] pieces[i]).contains('\\'),
        backslashed(path) == text::joined(pieces, "\\"@),
    ensures
        !(path.len() >= 2 && path[1] == ':') ==> (has_directory(path, Platform::Windows) <==> (
        exists|i: int, j: int|
            0 <= i < j < pieces.len() && (#[trigger] pieces[i]).len() > 0 && (#[trigger] pieces[j]).len()
                > 0 && (i == 0 || pieces[i] != "."@) && pieces[j] != "."@) || (path.len() > 0 && (
        path[0] == '/' || path[0] == '\\') && exists|i: int|
            0 <= i < pieces.len() && (#[trigger] pieces[i]).len() > 0 && (i == 0 || pieces[i]
                != "."@))),
        forall|letter: char|
            97 <= letter as int <= 122 || 65 <= letter as int <= 90 ==> (has_directory(
                #[trigger] seq![letter, ':'] + path,
                Platform::Windows,
            ) <==> exists|i: int|
                0 <= i < pieces.len() && (#[trigger] pieces[i]).len() > 0 && (i == 0 || pieces[i]
                    != "."@)),
{
    reveal_strlit("\\");
    assert("\\"@ == seq!['\\']);
    text::lemma_split_joined(pieces, '\\');
    if !(path.len() >= 2 && path[1] == ':') {
        assert(pieces_of(path, Platform::Windows) == pieces);
        lemma_components(pieces);
    }
    assert forall|letter: char|
        97 <= letter as int <= 122 || 65 <= letter as int <= 90 implies (has_directory(
        #[trigger] seq![letter, ':'] + path,
        Platform::Windows,
    ) <==> exists|i: int|
        0 <= i < pieces.len() && (#[trigger] pieces[i]).len() > 0 && (i == 0 || pieces[i] != "."@))
    by {
        let whole = seq![letter, ':'] + path;
        assert(whole[0] == letter && whole[1] == ':');
        assert(whole.skip(2) == path);
        assert(pieces_of(whole, Platform::Windows) == pieces);
        lemma_components(pieces);
    }
}

proof fn lemma_components(pieces: Seq<Seq<char>>)
    ensures
        (exists|i: int| #[trigger] is_component(pieces, i)) <==> exists|i: int|
            0 <= i < pieces.len() && (#[trigger] pieces[i]).len() > 0 && (i == 0 || pieces[i]
                != "."@),
        (exists|i: int, j: int|
            i < j && #[trigger] is_component(pieces, i) && #[trigger] is_component(pieces, j))
            <==> exists|i: int, j: int|
            0 <= i < j < pieces.len() && (#[trigger] pieces[i]).len() > 0 && (#[trigger] pieces[j]).len()
                > 0 && (i == 0 || pieces[i] != "."@) && pieces[j] != "."@,
{
    if exists|i: int| #[trigger] is_component(pieces, i) {
        let i = choose|i: int| #[trigger] is_component(pieces, i);
        assert(pieces[i].len() > 0);
    }
    if exists|i: int|
        0 <= i < pieces.len() && (#[trigger] pieces[i]).len() > 0 && (i == 0 || pieces[i] != "."@) {
        let i = choose|i: int|
            0 <= i < pieces.len() && (#[trigger] pieces[i]).len() > 0 && (i == 0 || pieces[i]
                != "."@);
        assert(is_component(pieces, i));
    }
    if exists|i: int, j: int|
        i < j && #[trigger] is_component(pieces, i) && #[trigger] is_component(pieces, j) {
        let (i, j) = choose|i: int, j: int|
            i < j && #[trigger] is_component(pieces, i) && #[trigger] is_component(pieces, j);
        assert(pieces[i].len() > 0 && pieces[j].len() > 0);
    }
    if exists|i: int, j: int|
        0 <= i < j < pieces.len() && (#[trigger] pieces[i]).len() > 0 && (#[trigger] pieces[j]).len()
            > 0 && (i == 0 || pieces[i] != "."@) && pieces[j] != "."@ {
        let (i, j) = choose|i: int, j: int|
            0 <= i < j < pieces.len() && (#[trigger] pieces[i]).len() > 0 && (
            #[trigger] pieces[j]).len() > 0 && (i == 0 || pieces[i] != "."@) && pieces[j] != "."@;
        assert(is_component(pieces, i) && is_component(pieces, j));
    }
}

/// A path is looked up as it stands where it is absolute or names no place in
/// front of its last component, and in no other case.
pub proof fn law_bare(path: Seq<char>, platform: Platform)
    ensures
        is_absolute_path(path, platform) ==> is_bare_path(path, platform),
        !is_absolute_path(path, platform) ==> (is_bare_path(path, platform) <==> !has_directory(
            path,
            platform,
        )),
{
}

} // verus!
