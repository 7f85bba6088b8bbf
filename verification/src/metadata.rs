//! The `maven-metadata.xml` documents that are made up from what a repository
//! directory holds, where neither the repository nor an upstream has one.
use vstd::prelude::*;
use vstd::utf8::*;

use crate::http;
use crate::order;
use crate::repository;
use crate::repository::RepoError;
use crate::text;
use crate::xml;

verus! {

/// An entry of a directory whose subdirectories are of interest.
#[derive(Debug)]
pub struct ChildEntry {
    /// The name, if it is text.
    pub name: Option<String>,
    /// It is known to be a directory.
    pub is_dir: bool,
}

/// An entry of a directory whose files are of interest.
#[derive(Debug)]
pub struct FileEntry {
    /// The name, with a replacement character for what is not text.
    pub name: String,
    /// The name is all text.
    pub exact: bool,
    /// It is a regular file.
    pub is_file: bool,
}

/// What listing a directory came to.
#[derive(Debug)]
pub enum Listed {
    /// It is no directory.
    NotDirectory,
    /// It could not be listed, with the reason.
    Failed(String),
    /// It has these entries.
    Entries(Vec<ChildEntry>),
}

/// What a directory allows to say about itself.
#[derive(Debug)]
pub enum Generated {
    /// The answer to the request for its metadata.
    Answer(Result<http::Response, RepoError>),
    /// The document is about a version: it depends on the files.
    NeedsFiles,
}

/// The names of the visible subdirectories among the entries.
pub open spec fn child_names(entries: Seq<ChildEntry>) -> Seq<Seq<char>>
    decreases entries.len(),
{
    if entries.len() == 0 {
        seq![]
    } else {
        let entry = entries.last();
        let before = child_names(entries.drop_last());
        if entry.is_dir && entry.name is Some && !text::begins(entry.name->0@, "."@) {
            before.push(entry.name->0@)
        } else {
            before
        }
    }
}

/// The `<version>` elements of a list of versions.
pub open spec fn version_elements(versions: Seq<Seq<char>>) -> Seq<char>
    decreases versions.len(),
{
    if versions.len() == 0 {
        seq![]
    } else {
        version_elements(versions.drop_last()) + "<version>"@ + xml::escaped(versions.last())
            + "</version>"@
    }
}

/// The last of the texts, or the empty text.
pub open spec fn last_or_empty(items: Seq<Seq<char>>) -> Seq<char> {
    if items.len() == 0 {
        seq![]
    } else {
        items.last()
    }
}

/// All but the last of the texts.
pub open spec fn but_last(items: Seq<Seq<char>>) -> Seq<Seq<char>> {
    if items.len() == 0 {
        items
    } else {
        items.drop_last()
    }
}

/// The document about an artifact: `directory` leads to the artifact, and each
/// of its subdirectories is a version.
pub open spec fn artifact_document(directory: Seq<Seq<char>>, versions: Seq<Seq<char>>) -> Seq<
    char,
> {
    let sorted = order::ascending(versions);
    let latest = xml::escaped(last_or_empty(sorted));
    "<?xml version=\"1.0\" encoding=\"UTF-8\"?>\n<metadata>\n  <groupId>"@ + xml::escaped(
        text::joined(but_last(directory), "."@),
    ) + "</groupId>\n  <artifactId>"@ + xml::escaped(last_or_empty(directory))
        + "</artifactId>\n  <versioning>\n    <latest>"@ + latest + "</latest>\n    <release>"@
        + latest + "</release>\n    <versions>"@ + version_elements(sorted)
        + "</versions>\n    <lastUpdated>19700101000000</lastUpdated>\n  </versioning>\n</metadata>\n"@
}

/// What a file name says after the artifact and version: possibly a
/// classifier, and an extension.
pub open spec fn classified(suffix: Seq<char>) -> Option<(Option<Seq<char>>, Seq<char>)> {
    if text::begins(suffix, "."@) {
        let extension = suffix.skip(1);
        if extension.len() == 0 {
            None
        } else {
            Some((None, extension))
        }
    } else if text::begins(suffix, "-"@) {
        let rest = suffix.skip(1);
        match text::rfind(rest, '.') {
            Some(at) => {
                let classifier = rest.take(at);
                let extension = rest.skip(at + 1);
                if classifier.len() == 0 || extension.len() == 0 {
                    None
                } else {
                    Some((Some(classifier), extension))
                }
            },
            None => None,
        }
    } else {
        None
    }
}

/// The element about one file of a version.
pub open spec fn snapshot_element(
    classifier: Option<Seq<char>>,
    extension: Seq<char>,
    version: Seq<char>,
) -> Seq<char> {
    "<snapshotVersion><extension>"@ + xml::escaped(extension) + "</extension>"@ + (
    match classifier {
        Some(c) => "<classifier>"@ + xml::escaped(c) + "</classifier>"@,
        None => seq![],
    }) + "<value>"@ + xml::escaped(version)
        + "</value><updated>19700101000000</updated></snapshotVersion>"@
}

/// The element about an entry of a version directory, if it is one of the
/// files of that version.
pub open spec fn file_element(
    entry: FileEntry,
    prefix: Seq<char>,
    version: Seq<char>,
) -> Option<Seq<char>> {
    if !entry.is_file || (entry.exact && repository::is_ignored_name(entry.name@)) || !text::begins(
        entry.name@,
        prefix,
    ) {
        None
    } else {
        match classified(entry.name@.skip(prefix.len() as int)) {
            Some((classifier, extension)) => Some(
                snapshot_element(classifier, extension, version),
            ),
            None => None,
        }
    }
}

/// The elements about the entries of a version directory.
pub open spec fn file_elements(
    entries: Seq<FileEntry>,
    prefix: Seq<char>,
    version: Seq<char>,
) -> Seq<Seq<char>>
    decreases entries.len(),
{
    if entries.len() == 0 {
        seq![]
    } else {
        let before = file_elements(entries.drop_last(), prefix, version);
        match file_element(entries.last(), prefix, version) {
            Some(element) => before.push(element),
            None => before,
        }
    }
}

/// The document about a version: `directory` leads to the version, whose
/// directory holds `entries`.
pub open spec fn version_document(directory: Seq<Seq<char>>, entries: Seq<FileEntry>) -> Seq<
    char,
> {
    let n = directory.len() as int;
    let artifact = directory[n - 2];
    let version = directory[n - 1];
    let elements = file_elements(entries, artifact + "-"@ + version, version);
    "<?xml version=\"1.0\" encoding=\"UTF-8\"?>\n<metadata>\n  <groupId>"@ + xml::escaped(
        text::joined(directory.take(n - 2), "."@),
    ) + "</groupId>\n  <artifactId>"@ + xml::escaped(artifact) + "</artifactId>\n  <version>"@
        + xml::escaped(version)
        + "</version>\n  <versioning>\n    <snapshot><localCopy>true</localCopy></snapshot>\n    <lastUpdated>19700101000000</lastUpdated>\n    <snapshotVersions>"@
        + text::joined(order::ascending(elements), ""@)
        + "</snapshotVersions>\n  </versioning>\n</metadata>\n"@
}

fn child_directories(entries: &Vec<ChildEntry>) -> (names: Vec<String>)
    ensures
        text::views(names@) == child_names(entries@),
{
    let mut names: Vec<String> = Vec::new();
    assert(text::views(names@) == child_names(entries@.take(0)));
    for i in 0..entries.len()
        invariant
            text::views(names@) == child_names(entries@.take(i as int)),
    {
        let ghost before = text::views(names@);
        assert(entries@.take(i + 1).drop_last() == entries@.take(i as int));
        match &entries[i].name {
            Some(name) => {
                if entries[i].is_dir && !text::starts_with(name.as_str(), ".") {
                    names.push(name.clone());
                    assert(text::views(names@) == before.push(name@));
                }
            },
            None => {},
        }
    }
    assert(entries@.take(entries@.len() as int) == entries@);
    names
}

/// The document about an artifact, whatever the order of its versions.
pub fn artifact_metadata(directory: &Vec<String>, versions: Vec<String>) -> (document: String)
    ensures
        document@ == artifact_document(text::views(directory@), text::views(versions@)),
{
    let versions = order::sort(versions);
    let ghost sorted = text::views(versions@);
    let ghost names = text::views(directory@);
    let artifact_id = if directory.len() == 0 {
        String::new()
    } else {
        directory[directory.len() - 1].clone()
    };
    let parents = text::copies(
        directory,
        0,
        if directory.len() == 0 {
            0
        } else {
            directory.len() - 1
        },
    );
    proof {
        assert(artifact_id@ == last_or_empty(names));
        assert(text::views(parents@) == but_last(names));
    }
    let group_id = text::join(&parents, ".");
    let latest = if versions.len() == 0 {
        String::new()
    } else {
        versions[versions.len() - 1].clone()
    };
    assert(latest@ == last_or_empty(sorted));
    let latest = xml::xml_escape(latest.as_str());
    let mut elements = String::new();
    for i in 0..versions.len()
        invariant
            sorted == text::views(versions@),
            elements@ == version_elements(sorted.take(i as int)),
    {
        proof {
            assert(sorted.take(i + 1).drop_last() == sorted.take(i as int));
            assert(sorted.take(i + 1).last() == versions@[i as int]@);
        }
        elements.append("<version>");
        elements.append(xml::xml_escape(versions[i].as_str()).as_str());
        elements.append("</version>");
    }
    assert(sorted.take(sorted.len() as int) == sorted);
    let mut document =
        "<?xml version=\"1.0\" encoding=\"UTF-8\"?>\n<metadata>\n  <groupId>".to_string();
    document.append(xml::xml_escape(group_id.as_str()).as_str());
    document.append("</groupId>\n  <artifactId>");
    document.append(xml::xml_escape(artifact_id.as_str()).as_str());
    document.append("</artifactId>\n  <versioning>\n    <latest>");
    document.append(latest.as_str());
    document.append("</latest>\n    <release>");
    document.append(latest.as_str());
    document.append("</release>\n    <versions>");
    document.append(elements.as_str());
    document.append(
        "</versions>\n    <lastUpdated>19700101000000</lastUpdated>\n  </versioning>\n</metadata>\n",
    );
    document
}

fn classify(suffix: &str) -> (r: Option<(Option<String>, String)>)
    ensures
        match r {
            Some((classifier, extension)) => classified(suffix@) == Some(
                (text::opt_view(classifier), extension@),
            ),
            None => classified(suffix@) is None,
        },
{
    proof {
        reveal_strlit(".");
        reveal_strlit("-");
    }
    match text::strip_prefix(suffix, ".") {
        Some(extension) => {
            if extension.as_str().is_empty() {
                None
            } else {
                Some((None, extension))
            }
        },
        None => match text::strip_prefix(suffix, "-") {
            Some(rest) => match text::rsplit_once(rest.as_str(), '.') {
                Some((classifier, extension)) => {
                    if classifier.as_str().is_empty() || extension.as_str().is_empty() {
                        None
                    } else {
                        Some((Some(classifier), extension))
                    }
                },
                None => None,
            },
            None => None,
        },
    }
}

fn snapshot_xml(classifier: Option<String>, extension: &str, version: &str) -> (element: String)
    ensures
        element@ == snapshot_element(text::opt_view(classifier), extension@, version@),
{
    let mut inner = String::new();
    match classifier {
        Some(c) => {
            inner.append("<classifier>");
            inner.append(xml::xml_escape(c.as_str()).as_str());
            inner.append("</classifier>");
            assert(inner@ == "<classifier>"@ + xml::escaped(c@) + "</classifier>"@);
        },
        None => {},
    }
    let mut element = "<snapshotVersion><extension>".to_string();
    element.append(xml::xml_escape(extension).as_str());
    element.append("</extension>");
    element.append(inner.as_str());
    element.append("<value>");
    element.append(xml::xml_escape(version).as_str());
    element.append("</value><updated>19700101000000</updated></snapshotVersion>");
    element
}

/// The document about a version, whatever the order of its files.
pub fn version_metadata(directory: &Vec<String>, entries: &Vec<FileEntry>) -> (document: String)
    requires
        directory@.len() >= 2,
    ensures
        document@ == version_document(text::views(directory@), entries@),
{
    let n: usize = directory.len();
    let artifact_id = directory[n - 2].clone();
    let version = directory[n - 1].clone();
    let ghost names = text::views(directory@);
    assert(names[n - 2] == artifact_id@ && names[n - 1] == version@);
    let parents = text::copies(directory, 0, n - 2);
    assert(text::views(parents@) == names.take(n - 2));
    let group_id = text::join(&parents, ".");
    let mut prefix = artifact_id.clone();
    prefix.append("-");
    prefix.append(version.as_str());
    let mut elements: Vec<String> = Vec::new();
    assert(text::views(elements@) == file_elements(entries@.take(0), prefix@, version@));
    for i in 0..entries.len()
        invariant
            text::views(elements@) == file_elements(
                entries@.take(i as int),
                prefix@,
                version@,
            ),
    {
        let ghost before = text::views(elements@);
        assert(entries@.take(i + 1).drop_last() == entries@.take(i as int));
        let entry = &entries[i];
        let ignored: bool = entry.exact && repository::ignored_file(Some(entry.name.as_str()));
        if entry.is_file && !ignored {
            match text::strip_prefix(entry.name.as_str(), prefix.as_str()) {
                Some(suffix) => match classify(suffix.as_str()) {
                    Some((classifier, extension)) => {
                        let element = snapshot_xml(
                            classifier,
                            extension.as_str(),
                            version.as_str(),
                        );
                        elements.push(element);
                        assert(text::views(elements@) == before.push(element@));
                    },
                    None => {},
                },
                None => {},
            }
        }
    }
    assert(entries@.take(entries@.len() as int) == entries@);
    let elements = text::join(&order::sort(elements), "");
    let mut document =
        "<?xml version=\"1.0\" encoding=\"UTF-8\"?>\n<metadata>\n  <groupId>".to_string();
    document.append(xml::xml_escape(group_id.as_str()).as_str());
    document.append("</groupId>\n  <artifactId>");
    document.append(xml::xml_escape(artifact_id.as_str()).as_str());
    document.append("</artifactId>\n  <version>");
    document.append(xml::xml_escape(version.as_str()).as_str());
    document.append(
        "</version>\n  <versioning>\n    <snapshot><localCopy>true</localCopy></snapshot>\n    <lastUpdated>19700101000000</lastUpdated>\n    <snapshotVersions>",
    );
    document.append(elements.as_str());
    document.append("</snapshotVersions>\n  </versioning>\n</metadata>\n");
    document
}

/// The response delivers the document.
pub open spec fn delivers(response: http::Response, document: Seq<char>) -> bool {
    &&& response@.status == "200 OK"@
    &&& response@.content_type == "application/xml; charset=utf-8"@
    &&& response@.body matches http::Body::Bytes(bytes) && bytes@ == encode_utf8(document)
}

/// What can be said about a directory from its entries: about an artifact
/// where it has visible subdirectories, about a version where it has none and
/// lies deep enough.
pub fn generate_metadata(directory: &Vec<String>, listed: &Listed) -> (r: Generated)
    ensures
        match *listed {
            Listed::NotDirectory => r matches Generated::Answer(Err(e)) && e@
                == repository::ErrorView::NotFound,
            Listed::Failed(reason) => r matches Generated::Answer(Err(e)) && e@
                == repository::ErrorView::Failed("读取 Maven 仓库目录失败"@ + ": "@ + reason@),
            Listed::Entries(entries) => {
                let names = child_names(entries@);
                if names.len() > 0 {
                    r matches Generated::Answer(Ok(response)) && delivers(
                        response,
                        artifact_document(text::views(directory@), names),
                    )
                } else if directory@.len() >= 3 {
                    r is NeedsFiles
                } else {
                    r matches Generated::Answer(Err(e)) && e@ == repository::ErrorView::NotFound
                }
            },
        },
{
    let names = match listed {
        Listed::NotDirectory => return Generated::Answer(Err(RepoError::NotFound)),
        Listed::Failed(reason) => return Generated::Answer(
            Err(repository::failure("读取 Maven 仓库目录失败", reason.as_str())),
        ),
        Listed::Entries(entries) => child_directories(entries),
    };
    if names.len() > 0 {
        let document = artifact_metadata(directory, names);
        Generated::Answer(Ok(metadata_response(document.as_str())))
    } else if directory.len() >= 3 {
        Generated::NeedsFiles
    } else {
        Generated::Answer(Err(RepoError::NotFound))
    }
}

/// The response that delivers a document.
pub fn metadata_response(document: &str) -> (r: http::Response)
    ensures
        delivers(r, document@),
{
    proof {
        reveal_strlit("application/xml; charset=utf-8");
    }
    http::Response::ok(
        "application/xml; charset=utf-8",
        http::Body::Bytes(document.as_bytes_vec()),
    )
}

/// The document about an artifact does not depend on the order in which the
/// versions were found.
pub proof fn law_artifact_document_ignores_order(
    directory: Seq<Seq<char>>,
    a: Seq<Seq<char>>,
    b: Seq<Seq<char>>,
)
    requires
        a.to_multiset() == b.to_multiset(),
    ensures
        artifact_document(directory, a) == artifact_document(directory, b),
{
    order::law_ascending_ignores_order(a, b);
}

proof fn lemma_child_names_remove(entries: Seq<ChildEntry>, i: int)
    requires
        0 <= i < entries.len(),
    ensures
        child_names(entries).to_multiset() == child_names(entries.remove(i)).to_multiset().add(
            child_names(seq![entries[i]]).to_multiset(),
        ),
    decreases entries.len(),
{
    broadcast use vstd::seq_lib::group_to_multiset_ensures;

    let one = seq![entries[i]];
    let none: Seq<ChildEntry> = seq![];
    assert(one.drop_last() == none);
    let no_names: Seq<Seq<char>> = seq![];
    assert(child_names(none) == no_names);
    assert(no_names.to_multiset() =~= vstd::multiset::Multiset::empty());
    if i == entries.len() - 1 {
        assert(entries.remove(i) == entries.drop_last());
    } else {
        let shorter = entries.drop_last();
        lemma_child_names_remove(shorter, i);
        assert(entries.remove(i).drop_last() == shorter.remove(i));
        assert(entries.remove(i).last() == entries.last());
    }
    assert(child_names(entries).to_multiset() =~= child_names(entries.remove(i)).to_multiset().add(
        child_names(one).to_multiset(),
    ));
}

/// Which subdirectories are found does not depend on the order in which the
/// entries are listed.
pub proof fn law_child_names_ignore_order(a: Seq<ChildEntry>, b: Seq<ChildEntry>)
    requires
        a.to_multiset() == b.to_multiset(),
    ensures
        child_names(a).to_multiset() == child_names(b).to_multiset(),
    decreases a.len(),
{
    broadcast use vstd::seq_lib::group_to_multiset_ensures;

    vstd::seq_lib::to_multiset_len(a);
    vstd::seq_lib::to_multiset_len(b);
    if a.len() > 0 {
        let x = a.last();
        assert(a[a.len() - 1] == x);
        assert(b.to_multiset().count(x) > 0);
        let i = b.index_of(x);
        assert(b.contains(x));
        assert(a.drop_last() == a.remove(a.len() - 1));
        law_child_names_ignore_order(a.drop_last(), b.remove(i));
        lemma_child_names_remove(a, a.len() - 1);
        lemma_child_names_remove(b, i);
    } else {
        assert(a == b);
    }
}

proof fn lemma_file_elements_remove(
    entries: Seq<FileEntry>,
    prefix: Seq<char>,
    version: Seq<char>,
    i: int,
)
    requires
        0 <= i < entries.len(),
    ensures
        file_elements(entries, prefix, version).to_multiset() == file_elements(
            entries.remove(i),
            prefix,
            version,
        ).to_multiset().add(file_elements(seq![entries[i]], prefix, version).to_multiset()),
    decreases entries.len(),
{
    broadcast use vstd::seq_lib::group_to_multiset_ensures;

    let one = seq![entries[i]];
    let none: Seq<FileEntry> = seq![];
    assert(one.drop_last() == none);
    let no_elements: Seq<Seq<char>> = seq![];
    assert(file_elements(none, prefix, version) == no_elements);
    assert(no_elements.to_multiset() =~= vstd::multiset::Multiset::empty());
    if i == entries.len() - 1 {
        assert(entries.remove(i) == entries.drop_last());
    } else {
        let shorter = entries.drop_last();
        lemma_file_elements_remove(shorter, prefix, version, i);
        assert(entries.remove(i).drop_last() == shorter.remove(i));
        assert(entries.remove(i).last() == entries.last());
    }
    assert(file_elements(entries, prefix, version).to_multiset() =~= file_elements(
        entries.remove(i),
        prefix,
        version,
    ).to_multiset().add(file_elements(one, prefix, version).to_multiset()));
}

proof fn lemma_file_elements_ignore_order(
    a: Seq<FileEntry>,
    b: Seq<FileEntry>,
    prefix: Seq<char>,
    version: Seq<char>,
)
    requires
        a.to_multiset() == b.to_multiset(),
    ensures
        file_elements(a, prefix, version).to_multiset() == file_elements(
            b,
            prefix,
            version,
        ).to_multiset(),
    decreases a.len(),
{
    broadcast use vstd::seq_lib::group_to_multiset_ensures;

    vstd::seq_lib::to_multiset_len(a);
    vstd::seq_lib::to_multiset_len(b);
    if a.len() > 0 {
        let x = a.last();
        assert(a[a.len() - 1] == x);
        assert(b.to_multiset().count(x) > 0);
        let i = b.index_of(x);
        assert(b.contains(x));
        assert(a.drop_last() == a.remove(a.len() - 1));
        lemma_file_elements_ignore_order(a.drop_last(), b.remove(i), prefix, version);
        lemma_file_elements_remove(a, prefix, version, a.len() - 1);
        lemma_file_elements_remove(b, prefix, version, i);
    } else {
        assert(a == b);
    }
}

/// The document about a version does not depend on the order in which its
/// files are listed.
pub proof fn law_version_document_ignores_order(
    directory: Seq<Seq<char>>,
    a: Seq<FileEntry>,
    b: Seq<FileEntry>,
)
    requires
        directory.len() >= 2,
        a.to_multiset() == b.to_multiset(),
    ensures
        version_document(directory, a) == version_document(directory, b),
{
    let n = directory.len() as int;
    let version = directory[n - 1];
    let prefix = directory[n - 2] + "-"@ + version;
    lemma_file_elements_ignore_order(a, b, prefix, version);
    order::law_ascending_ignores_order(
        file_elements(a, prefix, version),
        file_elements(b, prefix, version),
    );
}

/// The latest version in the document about an artifact is one of its versions
/// and comes no earlier in the order than any other.
pub proof fn law_latest_is_greatest(versions: Seq<Seq<char>>, v: Seq<char>)
    requires
        versions.contains(v),
    ensures
        versions.contains(last_or_empty(order::ascending(versions))),
        order::at_most(v, last_or_empty(order::ascending(versions))),
{
    broadcast use vstd::seq_lib::group_to_multiset_ensures;

    let sorted = order::ascending(versions);
    order::law_ascending(versions);
    order::lemma_text_order();
    assert(sorted.to_multiset().count(v) > 0);
    assert(sorted.contains(v));
    let i = sorted.index_of(v);
    let latest = last_or_empty(sorted);
    assert(sorted.contains(latest)) by {
        assert(sorted[sorted.len() - 1] == latest);
    }
    assert(versions.to_multiset().count(latest) > 0);
    let relation = order::text_order();
    assert(relation(latest, latest));
    if i < sorted.len() - 1 {
        assert(order::at_most(sorted[i], sorted[sorted.len() - 1]));
    }
}

/// What is read off a file name makes up the file name again: the classifier is
/// all that stands between the dash and the last dot, and the extension all that
/// follows.
pub proof fn law_classified(suffix: Seq<char>)
    ensures
        match classified(suffix) {
            Some((Some(classifier), extension)) => suffix == "-"@ + classifier + "."@ + extension
                && classifier.len() > 0 && extension.len() > 0 && !extension.contains('.'),
            Some((None, extension)) => suffix == "."@ + extension && extension.len() > 0,
            None => true,
        },
{
    reveal_strlit(".");
    reveal_strlit("-");
    assert("."@ == seq!['.']);
    assert("-"@ == seq!['-']);
    if text::begins(suffix, "."@) {
        assert(suffix.subrange(0, 1) == "."@);
        assert(suffix == "."@ + suffix.skip(1));
    } else if text::begins(suffix, "-"@) {
        assert(suffix.subrange(0, 1) == "-"@);
        let rest = suffix.skip(1);
        assert(suffix == "-"@ + rest);
        text::law_rfind(rest, '.');
        if let Some(at) = text::rfind(rest, '.') {
            assert(rest == rest.take(at) + "."@ + rest.skip(at + 1));
            assert("-"@ + (rest.take(at) + "."@ + rest.skip(at + 1)) == "-"@ + rest.take(at) + "."@
                + rest.skip(at + 1));
            assert(!rest.skip(at + 1).contains('.'));
        }
    }
}

/// Every classifier and extension are read off the name that they make up.
pub proof fn law_classified_is_complete(classifier: Seq<char>, extension: Seq<char>)
    requires
        extension.len() > 0,
    ensures
        classified("."@ + extension) == Some((None::<Seq<char>>, extension)),
        classifier.len() > 0 && !extension.contains('.') ==> classified(
            "-"@ + classifier + "."@ + extension,
        ) == Some((Some(classifier), extension)),
{
    reveal_strlit(".");
    reveal_strlit("-");
    assert("."@ == seq!['.']);
    assert("-"@ == seq!['-']);
    let plain = "."@ + extension;
    assert(plain.subrange(0, 1) == "."@);
    assert(plain.skip(1) == extension);
    if classifier.len() > 0 && !extension.contains('.') {
        let suffix = "-"@ + classifier + "."@ + extension;
        assert(suffix[0] == '-');
        assert(suffix.subrange(0, 1) == "-"@);
        assert(suffix.subrange(0, 1)[0] == '-');
        assert("."@[0] == '.');
        let rest = suffix.skip(1);
        let at = classifier.len() as int;
        assert(rest == classifier + "."@ + extension);
        text::law_rfind(rest, '.');
        assert(rest[at] == '.');
        let found = text::rfind(rest, '.')->0;
        if found > at {
            assert(rest[found] == extension[found - at - 1]);
        }
        assert(rest.take(at) == classifier);
        assert(rest.skip(at + 1) == extension);
    }
}

/// The element about a file names its extension, its classifier if it has one,
/// and the version.
pub proof fn law_snapshot_element(
    classifier: Seq<char>,
    extension: Seq<char>,
    version: Seq<char>,
)
    ensures
        snapshot_element(None, extension, version) == "<snapshotVersion><extension>"@
            + xml::escaped(extension) + "</extension>"@ + "<value>"@ + xml::escaped(version)
            + "</value><updated>19700101000000</updated></snapshotVersion>"@,
        snapshot_element(Some(classifier), extension, version) == "<snapshotVersion><extension>"@
            + xml::escaped(extension) + "</extension>"@ + "<classifier>"@ + xml::escaped(classifier)
            + "</classifier>"@ + "<value>"@ + xml::escaped(version)
            + "</value><updated>19700101000000</updated></snapshotVersion>"@,
{
    let head = "<snapshotVersion><extension>"@ + xml::escaped(extension) + "</extension>"@;
    let tail = "<value>"@ + xml::escaped(version)
        + "</value><updated>19700101000000</updated></snapshotVersion>"@;
    assert(snapshot_element(None, extension, version) == head + tail);
    assert(head + tail == head + "<value>"@ + xml::escaped(version)
        + "</value><updated>19700101000000</updated></snapshotVersion>"@);
    let inner = "<classifier>"@ + xml::escaped(classifier) + "</classifier>"@;
    assert(snapshot_element(Some(classifier), extension, version) == head + inner + tail);
    assert(head + inner + tail == head + "<classifier>"@ + xml::escaped(classifier)
        + "</classifier>"@ + "<value>"@ + xml::escaped(version)
        + "</value><updated>19700101000000</updated></snapshotVersion>"@);
}

/// A regular file of a version, that is not ignored, is described by what
/// follows artifact and version in its name; nothing else is.
pub proof fn law_file_element(
    entry: FileEntry,
    prefix: Seq<char>,
    suffix: Seq<char>,
    version: Seq<char>,
)
    ensures
        !entry.is_file ==> file_element(entry, prefix, version) is None,
        entry.exact && (entry.name@ == "_remote.repositories"@ || text::ends(
            entry.name@,
            ".lastUpdated"@,
        ) || text::ends(entry.name@, ".part"@)) ==> file_element(entry, prefix, version) is None,
        !text::begins(entry.name@, prefix) ==> file_element(entry, prefix, version) is None,
        entry.is_file && entry.name@ == prefix + suffix && !(entry.exact && (entry.name@
            == "_remote.repositories"@ || text::ends(entry.name@, ".lastUpdated"@) || text::ends(
            entry.name@,
            ".part"@,
        ))) ==> file_element(entry, prefix, version) == match classified(suffix) {
            Some((classifier, extension)) => Some(snapshot_element(classifier, extension, version)),
            None => None,
        },
{
    if entry.name@ == prefix + suffix {
        assert(entry.name@.subrange(0, prefix.len() as int) == prefix);
        assert(entry.name@.skip(prefix.len() as int) == suffix);
    }
}

/// The elements about the entries of a directory are those about each of them,
/// one after the other.
pub proof fn law_file_elements(
    entries: Seq<FileEntry>,
    entry: FileEntry,
    prefix: Seq<char>,
    version: Seq<char>,
)
    ensures
        file_elements(seq![], prefix, version).len() == 0,
        file_elements(entries.push(entry), prefix, version) == match file_element(
            entry,
            prefix,
            version,
        ) {
            Some(element) => file_elements(entries, prefix, version).push(element),
            None => file_elements(entries, prefix, version),
        },
{
    assert(entries.push(entry).drop_last() == entries);
}

/// The names of the visible subdirectories are those among each of the entries,
/// one after the other.
pub proof fn law_child_names(entries: Seq<ChildEntry>, entry: ChildEntry)
    ensures
        child_names(seq![]).len() == 0,
        entry.is_dir && entry.name is Some && (entry.name->0@.len() == 0 || entry.name->0@[0]
            != '.') ==> child_names(entries.push(entry)) == child_names(entries).push(
            entry.name->0@,
        ),
        !(entry.is_dir && entry.name is Some && (entry.name->0@.len() == 0 || entry.name->0@[0]
            != '.')) ==> child_names(entries.push(entry)) == child_names(entries),
{
    reveal_strlit(".");
    assert(entries.push(entry).drop_last() == entries);
    if entry.name is Some && entry.name->0@.len() > 0 {
        let name = entry.name->0@;
        let first = name.subrange(0, 1);
        assert(first[0] == name[0]);
        if name[0] == '.' {
            assert(first == "."@);
        }
    }
}

proof fn lemma_file_element_listed(
    entries: Seq<FileEntry>,
    prefix: Seq<char>,
    version: Seq<char>,
    i: int,
)
    requires
        0 <= i < entries.len(),
        file_element(entries[i], prefix, version) is Some,
    ensures
        file_elements(entries, prefix, version).contains(
            file_element(entries[i], prefix, version)->0,
        ),
    decreases entries.len(),
{
    let init = entries.drop_last();
    let element = file_element(entries[i], prefix, version)->0;
    let before = file_elements(init, prefix, version);
    let all = file_elements(entries, prefix, version);
    if i < init.len() {
        lemma_file_element_listed(init, prefix, version, i);
        let k = before.index_of(element);
        assert(all[k] == element);
    } else {
        assert(all[before.len() as int] == element);
    }
}

/// The document about a version holds the element about every file of it.
pub proof fn law_version_document_lists_files(
    directory: Seq<Seq<char>>,
    entries: Seq<FileEntry>,
    i: int,
)
    requires
        directory.len() >= 2,
        0 <= i < entries.len(),
        file_element(
            entries[i],
            directory[directory.len() - 2] + "-"@ + directory[directory.len() - 1],
            directory[directory.len() - 1],
        ) is Some,
    ensures
        text::has(
            version_document(directory, entries),
            file_element(
                entries[i],
                directory[directory.len() - 2] + "-"@ + directory[directory.len() - 1],
                directory[directory.len() - 1],
            )->0,
        ),
{
    broadcast use vstd::seq_lib::group_to_multiset_ensures;

    let n = directory.len() as int;
    let version = directory[n - 1];
    let prefix = directory[n - 2] + "-"@ + version;
    let element = file_element(entries[i], prefix, version)->0;
    lemma_file_element_listed(entries, prefix, version, i);
    let elements = file_elements(entries, prefix, version);
    let sorted = order::ascending(elements);
    order::law_ascending(elements);
    assert(elements.to_multiset().count(element) > 0);
    assert(sorted.contains(element));
    let k = sorted.index_of(element);
    text::lemma_joined_has(sorted, ""@, k);
    let listed = text::joined(sorted, ""@);
    let document = version_document(directory, entries);
    let tail = "</snapshotVersions>\n  </versioning>\n</metadata>\n"@;
    let at = document.len() - tail.len() - listed.len();
    assert(document.subrange(at, at + listed.len()) == listed);
    assert(text::occurs_at(document, listed, at));
    text::lemma_has_within(document, listed, element);
}

/// The documents say which group, artifact and version they are about: the group
/// is the directories above the artifact, parted by dots.
pub proof fn law_documents_name_their_subject(
    group: Seq<Seq<char>>,
    artifact: Seq<char>,
    version: Seq<char>,
    versions: Seq<Seq<char>>,
    entries: Seq<FileEntry>,
)
    ensures
        ({
            let about_artifact = artifact_document(group.push(artifact), versions);
            let about_version = version_document(group.push(artifact).push(version), entries);
            let group_element = "<groupId>"@ + xml::escaped(text::joined(group, "."@))
                + "</groupId>"@;
            let artifact_element = "<artifactId>"@ + xml::escaped(artifact) + "</artifactId>"@;
            &&& text::has(about_artifact, group_element)
            &&& text::has(about_artifact, artifact_element)
            &&& text::has(about_version, group_element)
            &&& text::has(about_version, artifact_element)
            &&& text::has(about_version, "<version>"@ + xml::escaped(version) + "</version>"@)
        }),
{
    lemma_artifact_subject(group, artifact, versions);
    lemma_version_subject(group, artifact, version, entries);
}

proof fn lemma_artifact_subject(
    group: Seq<Seq<char>>,
    artifact: Seq<char>,
    versions: Seq<Seq<char>>,
)
    ensures
        text::has(
            artifact_document(group.push(artifact), versions),
            "<groupId>"@ + xml::escaped(text::joined(group, "."@)) + "</groupId>"@,
        ),
        text::has(
            artifact_document(group.push(artifact), versions),
            "<artifactId>"@ + xml::escaped(artifact) + "</artifactId>"@,
        ),
{
    let directory = group.push(artifact);
    assert(directory.drop_last() == group);
    let document = artifact_document(directory, versions);
    let g = xml::escaped(text::joined(group, "."@));
    let a = xml::escaped(artifact);
    let l0 = "<?xml version=\"1.0\" encoding=\"UTF-8\"?>\n<metadata>\n  <groupId>"@;
    let l1 = "</groupId>\n  <artifactId>"@;
    let l2 = "</artifactId>\n  <versioning>\n    <latest>"@;
    reveal_strlit("<?xml version=\"1.0\" encoding=\"UTF-8\"?>\n<metadata>\n  <groupId>");
    reveal_strlit("</groupId>\n  <artifactId>");
    reveal_strlit("</artifactId>\n  <versioning>\n    <latest>");
    reveal_strlit("<groupId>");
    reveal_strlit("</groupId>");
    reveal_strlit("<artifactId>");
    reveal_strlit("</artifactId>");
    assert(l0.subrange(l0.len() - 9, l0.len() as int) == "<groupId>"@);
    assert(l1.subrange(0, 10) == "</groupId>"@);
    assert(l1.subrange(l1.len() - 12, l1.len() as int) == "<artifactId>"@);
    assert(l2.subrange(0, 13) == "</artifactId>"@);
    let none: Seq<char> = seq![];
    let after = document.skip((l0.len() + g.len() + l1.len()) as int);
    assert(document == none + l0 + g + l1 + after);
    text::lemma_enclosed(none, l0, g, l1, after, "<groupId>"@, "</groupId>"@);
    let later = document.skip((l0.len() + g.len() + l1.len() + a.len() + l2.len()) as int);
    assert(document == (l0 + g) + l1 + a + l2 + later);
    text::lemma_enclosed(l0 + g, l1, a, l2, later, "<artifactId>"@, "</artifactId>"@);
}

proof fn lemma_version_subject(
    group: Seq<Seq<char>>,
    artifact: Seq<char>,
    version: Seq<char>,
    entries: Seq<FileEntry>,
)
    ensures
        text::has(
            version_document(group.push(artifact).push(version), entries),
            "<groupId>"@ + xml::escaped(text::joined(group, "."@)) + "</groupId>"@,
        ),
        text::has(
            version_document(group.push(artifact).push(version), entries),
            "<artifactId>"@ + xml::escaped(artifact) + "</artifactId>"@,
        ),
        text::has(
            version_document(group.push(artifact).push(version), entries),
            "<version>"@ + xml::escaped(version) + "</version>"@,
        ),
{
    let directory = group.push(artifact).push(version);
    assert(directory.take(directory.len() - 2) == group);
    let document = version_document(directory, entries);
    let g = xml::escaped(text::joined(group, "."@));
    let a = xml::escaped(artifact);
    let v = xml::escaped(version);
    let l0 = "<?xml version=\"1.0\" encoding=\"UTF-8\"?>\n<metadata>\n  <groupId>"@;
    let l1 = "</groupId>\n  <artifactId>"@;
    let l2 = "</artifactId>\n  <version>"@;
    let l3 =
        "</version>\n  <versioning>\n    <snapshot><localCopy>true</localCopy></snapshot>\n    <lastUpdated>19700101000000</lastUpdated>\n    <snapshotVersions>"@;
    reveal_strlit("<?xml version=\"1.0\" encoding=\"UTF-8\"?>\n<metadata>\n  <groupId>");
    reveal_strlit("</groupId>\n  <artifactId>");
    reveal_strlit("</artifactId>\n  <version>");
    reveal_strlit(
        "</version>\n  <versioning>\n    <snapshot><localCopy>true</localCopy></snapshot>\n    <lastUpdated>19700101000000</lastUpdated>\n    <snapshotVersions>",
    );
    reveal_strlit("<groupId>");
    reveal_strlit("</groupId>");
    reveal_strlit("<artifactId>");
    reveal_strlit("</artifactId>");
    reveal_strlit("<version>");
    reveal_strlit("</version>");
    assert(l0.subrange(l0.len() - 9, l0.len() as int) == "<groupId>"@);
    assert(l1.subrange(0, 10) == "</groupId>"@);
    assert(l1.subrange(l1.len() - 12, l1.len() as int) == "<artifactId>"@);
    assert(l2.subrange(0, 13) == "</artifactId>"@);
    assert(l2.subrange(l2.len() - 9, l2.len() as int) == "<version>"@);
    assert(l3.subrange(0, 10) == "</version>"@);
    let none: Seq<char> = seq![];
    let after = document.skip((l0.len() + g.len() + l1.len()) as int);
    assert(document == none + l0 + g + l1 + after);
    text::lemma_enclosed(none, l0, g, l1, after, "<groupId>"@, "</groupId>"@);
    let later = document.skip((l0.len() + g.len() + l1.len() + a.len() + l2.len()) as int);
    assert(document == (l0 + g) + l1 + a + l2 + later);
    text::lemma_enclosed(l0 + g, l1, a, l2, later, "<artifactId>"@, "</artifactId>"@);
    let last = document.skip(
        (l0.len() + g.len() + l1.len() + a.len() + l2.len() + v.len() + l3.len()) as int,
    );
    assert(document == (l0 + g + l1 + a) + l2 + v + l3 + last);
    text::lemma_enclosed(l0 + g + l1 + a, l2, v, l3, last, "<version>"@, "</version>"@);
}

/// The document about an artifact names the greatest of its versions as the
/// latest and as the release, and lists all of them in ascending order.
pub proof fn law_artifact_document_lists_versions(
    directory: Seq<Seq<char>>,
    versions: Seq<Seq<char>>,
    latest: Seq<char>,
)
    requires
        versions.contains(latest),
        forall|v: Seq<char>| versions.contains(v) ==> order::at_most(v, latest),
    ensures
        ({
            let document = artifact_document(directory, versions);
            let escaped = xml::escaped(latest);
            &&& text::has(document, "<latest>"@ + escaped + "</latest>"@)
            &&& text::has(document, "<release>"@ + escaped + "</release>"@)
            &&& text::has(
                document,
                "<versions>"@ + version_elements(order::ascending(versions)) + "</versions>"@,
            )
        }),
{
    let sorted = order::ascending(versions);
    law_latest_is_greatest(versions, latest);
    order::lemma_text_order();
    let relation = order::text_order();
    let greatest = last_or_empty(sorted);
    assert(relation(latest, greatest) && relation(greatest, latest));
    assert(greatest == latest);
    let document = artifact_document(directory, versions);
    let g = xml::escaped(text::joined(but_last(directory), "."@));
    let a = xml::escaped(last_or_empty(directory));
    let l = xml::escaped(latest);
    let v = version_elements(sorted);
    let l0 = "<?xml version=\"1.0\" encoding=\"UTF-8\"?>\n<metadata>\n  <groupId>"@;
    let l1 = "</groupId>\n  <artifactId>"@;
    let l2 = "</artifactId>\n  <versioning>\n    <latest>"@;
    let l3 = "</latest>\n    <release>"@;
    let l4 = "</release>\n    <versions>"@;
    let l5 =
        "</versions>\n    <lastUpdated>19700101000000</lastUpdated>\n  </versioning>\n</metadata>\n"@;
    reveal_strlit("</artifactId>\n  <versioning>\n    <latest>");
    reveal_strlit("</latest>\n    <release>");
    reveal_strlit("</release>\n    <versions>");
    reveal_strlit(
        "</versions>\n    <lastUpdated>19700101000000</lastUpdated>\n  </versioning>\n</metadata>\n",
    );
    reveal_strlit("<latest>");
    reveal_strlit("</latest>");
    reveal_strlit("<release>");
    reveal_strlit("</release>");
    reveal_strlit("<versions>");
    reveal_strlit("</versions>");
    assert(l2.subrange(l2.len() - 8, l2.len() as int) == "<latest>"@);
    assert(l3.subrange(0, 9) == "</latest>"@);
    assert(l3.subrange(l3.len() - 9, l3.len() as int) == "<release>"@);
    assert(l4.subrange(0, 10) == "</release>"@);
    assert(l4.subrange(l4.len() - 10, l4.len() as int) == "<versions>"@);
    assert(l5.subrange(0, 11) == "</versions>"@);
    let head = l0 + g + l1 + a;
    let none: Seq<char> = seq![];
    assert(document == head + l2 + l + l3 + (l + l4 + v + l5));
    text::lemma_enclosed(head, l2, l, l3, l + l4 + v + l5, "<latest>"@, "</latest>"@);
    assert(document == (head + l2 + l) + l3 + l + l4 + (v + l5));
    text::lemma_enclosed(head + l2 + l, l3, l, l4, v + l5, "<release>"@, "</release>"@);
    assert(document == (head + l2 + l + l3 + l) + l4 + v + l5 + none);
    text::lemma_enclosed(head + l2 + l + l3 + l, l4, v, l5, none, "<versions>"@, "</versions>"@);
}

/// Each version of a list is an element, one after the other.
pub proof fn law_version_elements(versions: Seq<Seq<char>>, version: Seq<char>)
    ensures
        version_elements(seq![]).len() == 0,
        version_elements(versions.push(version)) == version_elements(versions) + ("<version>"@
            + xml::escaped(version) + "</version>"@),
{
    assert(versions.push(version).drop_last() == versions);
    assert(version_elements(versions) + "<version>"@ + xml::escaped(version) + "</version>"@
        == version_elements(versions) + ("<version>"@ + xml::escaped(version) + "</version>"@));
}

/// A response that delivers a document is a success, is XML, and holds the
/// document in UTF-8.
pub proof fn law_delivers(response: http::Response, document: Seq<char>)
    requires
        delivers(response, document),
    ensures
        response@.status == "200 OK"@,
        response@.content_type == "application/xml; charset=utf-8"@,
        response@.body matches http::Body::Bytes(bytes) && bytes@ == encode_utf8(document),
{
}

} // verus!
