//! Uploading a repository: which files belong to an artifact, which artifacts
//! are left out, where a file goes, and when it is sent.
use vstd::prelude::*;

use crate::repository;
use crate::text;

verus! {

/// What an upload is started with.
#[derive(Debug)]
pub struct UploadOptions {
    /// The repository for releases.
    pub url: String,
    /// The repository for snapshots, if it is another one.
    pub snapshot_url: Option<String>,
    /// Send files even if they were sent before.
    pub force: bool,
    /// Artifacts whose group or name holds one of these are left out.
    pub exclude: Vec<String>,
    /// Artifacts with a larger binary are left out, in mebibytes.
    pub max_size: u64,
}

/// The file describes an artifact.
pub open spec fn is_pom_name(name: Seq<char>) -> bool {
    text::ends(name, ".pom"@) || name == "pom.xml"@
}

/// Whether a file with this name describes an artifact.
pub fn is_pom(name: &str) -> (r: bool)
    ensures
        r == is_pom_name(name@),
{
    text::ends_with(name, ".pom") || text::equals(name, "pom.xml")
}

/// An entry of the directory of an artifact.
#[derive(Debug)]
pub struct DirectoryEntry {
    /// Its name.
    pub name: String,
    /// It is a regular file.
    pub is_file: bool,
}

/// A file of an artifact.
#[derive(Debug)]
pub struct ArtifactFile {
    /// Which entry of the directory it is.
    pub entry: usize,
    /// Its name.
    pub name: String,
    /// What follows the name and version of the artifact in it.
    pub extension: String,
}

/// An artifact and its files.
#[derive(Debug)]
pub struct MavenArtifact {
    pub group_id: String,
    pub artifact_id: String,
    pub version: String,
    pub files: Vec<ArtifactFile>,
}

/// Why a file describes no artifact of the repository.
#[derive(Debug, Clone, Copy, PartialEq, Eq, Structural)]
pub enum ArtifactError {
    /// It is not in the repository.
    OutsideRoot,
    /// There is no room for group, name and version above it.
    TooShallow,
}

impl ArtifactError {
    /// What is wrong.
    pub open spec fn text(self) -> Seq<char> {
        match self {
            ArtifactError::OutsideRoot => "路径不在根目录下"@,
            ArtifactError::TooShallow => "目录结构太浅"@,
        }
    }

    /// What is wrong.
    pub fn message(&self) -> (r: &'static str)
        ensures
            r@ == self.text(),
    {
        match self {
            ArtifactError::OutsideRoot => "路径不在根目录下",
            ArtifactError::TooShallow => "目录结构太浅",
        }
    }
}

/// A file of an artifact, in terms of texts.
pub ghost struct FileView {
    pub entry: int,
    pub name: Seq<char>,
    pub extension: Seq<char>,
}

/// What a file of an artifact holds.
pub open spec fn file_view(file: ArtifactFile) -> FileView {
    FileView { entry: file.entry as int, name: file.name@, extension: file.extension@ }
}

/// What the files of an artifact hold.
pub open spec fn file_views(files: Seq<ArtifactFile>) -> Seq<FileView> {
    files.map_values(|f: ArtifactFile| file_view(f))
}

/// What follows the prefix in a name, without the one character that parts
/// them; nothing where that is missing or not ASCII.
pub open spec fn extension_after(name: Seq<char>, prefix: Seq<char>) -> Seq<char> {
    if name.len() > prefix.len() && (name[prefix.len() as int] as u32) < 0x80 {
        name.skip(prefix.len() as int + 1)
    } else {
        seq![]
    }
}

/// The entry is a file of the artifact whose files begin with the prefix.
pub open spec fn belongs(entry: DirectoryEntry, prefix: Seq<char>) -> bool {
    &&& entry.is_file
    &&& text::begins(entry.name@, prefix)
    &&& !text::has(entry.name@, "_remote.repositories"@)
    &&& !text::ends(entry.name@, ".lastUpdated"@)
    &&& extension_after(entry.name@, prefix).len() > 0
}

/// The files of the artifact whose files begin with the prefix, in the order
/// of the entries.
pub open spec fn files_of(entries: Seq<DirectoryEntry>, prefix: Seq<char>) -> Seq<FileView>
    decreases entries.len(),
{
    if entries.len() == 0 {
        seq![]
    } else {
        let before = files_of(entries.drop_last(), prefix);
        let entry = entries.last();
        if belongs(entry, prefix) {
            before.push(
                FileView {
                    entry: entries.len() - 1,
                    name: entry.name@,
                    extension: extension_after(entry.name@, prefix),
                },
            )
        } else {
            before
        }
    }
}

/// The group that the directories above an artifact make.
pub open spec fn group_of(relative: Seq<Seq<char>>) -> Seq<char> {
    text::joined(relative.take(relative.len() - 3), "."@)
}

/// What the files of an artifact begin with.
pub open spec fn file_prefix(artifact_id: Seq<char>, version: Seq<char>) -> Seq<char> {
    artifact_id + "-"@ + version
}

fn extension_of(name: &str, prefix: &str) -> (r: String)
    ensures
        r@ == extension_after(name@, prefix@),
{
    let chars = text::chars_of(name);
    let skipped: usize = text::chars_of(prefix).len();
    if skipped < chars.len() && (chars[skipped] as u32) < 0x80 {
        let rest = text::text_of(&chars, skipped + 1, chars.len());
        assert(rest@ == name@.skip(prefix@.len() as int + 1));
        rest
    } else {
        String::new()
    }
}

fn artifact_files(entries: &Vec<DirectoryEntry>, prefix: &str) -> (r: Vec<ArtifactFile>)
    ensures
        file_views(r@) == files_of(entries@, prefix@),
{
    let mut files: Vec<ArtifactFile> = Vec::new();
    assert(file_views(files@) == files_of(entries@.take(0), prefix@));
    for i in 0..entries.len()
        invariant
            file_views(files@) == files_of(entries@.take(i as int), prefix@),
    {
        let entry = &entries[i];
        let ghost before = file_views(files@);
        assert(entries@.take(i + 1).drop_last() == entries@.take(i as int));
        assert(entries@.take(i + 1).last() == *entry);
        if entry.is_file && text::starts_with(entry.name.as_str(), prefix) && !text::contains(
            entry.name.as_str(),
            "_remote.repositories",
        ) && !text::ends_with(entry.name.as_str(), ".lastUpdated") {
            let extension = extension_of(entry.name.as_str(), prefix);
            if !extension.as_str().is_empty() {
                let file = ArtifactFile { entry: i, name: entry.name.clone(), extension };
                files.push(file);
                assert(file_views(files@) == before.push(file_view(file)));
            }
        }
    }
    assert(entries@.take(entries@.len() as int) == entries@);
    files
}

/// The artifact that a file describes, given the components of its path below
/// the root and the entries of its directory: the last directories are version
/// and name, and those above them the group.
pub fn extract_full_artifact(
    relative: Option<&Vec<String>>,
    entries: &Vec<DirectoryEntry>,
) -> (r: Result<MavenArtifact, ArtifactError>)
    ensures
        match (relative, r) {
            (Some(path), Ok(artifact)) => {
                let names = text::views(path@);
                &&& names.len() >= 4
                &&& artifact.group_id@ == group_of(names)
                &&& artifact.artifact_id@ == names[names.len() - 3]
                &&& artifact.version@ == names[names.len() - 2]
                &&& file_views(artifact.files@) == files_of(
                    entries@,
                    file_prefix(artifact.artifact_id@, artifact.version@),
                )
            },
            (Some(path), Err(e)) => path@.len() < 4 && e == ArtifactError::TooShallow,
            (None, Ok(_)) => false,
            (None, Err(e)) => e == ArtifactError::OutsideRoot,
        },
{
    let path = match relative {
        Some(path) => path,
        None => return Err(ArtifactError::OutsideRoot),
    };
    let n: usize = path.len();
    if n < 4 {
        return Err(ArtifactError::TooShallow);
    }
    let ghost names = text::views(path@);
    let version = path[n - 2].clone();
    let artifact_id = path[n - 3].clone();
    let directories = text::copies(path, 0, n - 3);
    assert(text::views(directories@) == names.take(n - 3));
    let group_id = text::join(&directories, ".");
    let mut prefix = artifact_id.clone();
    prefix.append("-");
    prefix.append(version.as_str());
    let files = artifact_files(entries, prefix.as_str());
    Ok(MavenArtifact { group_id, artifact_id, version, files })
}

proof fn lemma_files_of(entries: Seq<DirectoryEntry>, prefix: Seq<char>, i: int)
    requires
        0 <= i < files_of(entries, prefix).len(),
    ensures
        ({
            let file = files_of(entries, prefix)[i];
            &&& 0 <= file.entry < entries.len()
            &&& belongs(entries[file.entry], prefix)
            &&& file.name == entries[file.entry].name@
        }),
    decreases entries.len(),
{
    let init = entries.drop_last();
    if i < files_of(init, prefix).len() {
        lemma_files_of(init, prefix, i);
    }
}

/// State of a Maven client is never uploaded.
pub proof fn law_state_files_are_not_uploaded(
    entries: Seq<DirectoryEntry>,
    prefix: Seq<char>,
    i: int,
)
    requires
        0 <= i < files_of(entries, prefix).len(),
    ensures
        !crate::cleanup::is_state_name(files_of(entries, prefix)[i].name),
{
    lemma_files_of(entries, prefix, i);
    let name = files_of(entries, prefix)[i].name;
    if name == "_remote.repositories"@ {
        assert(name.subrange(0, name.len() as int) == name);
        assert(text::occurs_at(name, "_remote.repositories"@, 0));
    }
}

/// The pattern is in the group or the name of the artifact.
pub open spec fn matches_pattern(
    pattern: Seq<char>,
    group_id: Seq<char>,
    artifact_id: Seq<char>,
) -> bool {
    text::has(artifact_id, pattern) || text::has(group_id, pattern)
}

/// The first pattern, from `from` on, that is in the group or the name of the
/// artifact.
pub open spec fn first_match(
    patterns: Seq<Seq<char>>,
    group_id: Seq<char>,
    artifact_id: Seq<char>,
    from: int,
) -> Option<int>
    decreases patterns.len() - from,
{
    if from < 0 || from >= patterns.len() {
        None
    } else if matches_pattern(patterns[from], group_id, artifact_id) {
        Some(from)
    } else {
        first_match(patterns, group_id, artifact_id, from + 1)
    }
}

/// The file is a binary larger than `max_size` mebibytes; one whose size is not
/// known is not.
pub open spec fn is_oversized(file: FileView, size: Option<u64>, max_size: u64) -> bool {
    &&& file.extension == "jar"@ || file.extension == "war"@
    &&& size is Some
    &&& size->0 > max_size * 1024 * 1024
}

/// Some file is a binary larger than `max_size` mebibytes.
pub open spec fn has_oversized(
    files: Seq<FileView>,
    sizes: Seq<Option<u64>>,
    max_size: u64,
) -> bool {
    exists|i: int| 0 <= i < files.len() && is_oversized(#[trigger] files[i], sizes[i], max_size)
}

/// What is reported where an artifact is left out.
pub open spec fn exclusion(
    group_id: Seq<char>,
    artifact_id: Seq<char>,
    files: Seq<FileView>,
    sizes: Seq<Option<u64>>,
    patterns: Seq<Seq<char>>,
    max_size: u64,
) -> Option<Seq<char>> {
    match first_match(patterns, group_id, artifact_id, 0) {
        Some(i) => Some("  [🚫] 匹配排除规则 '"@ + patterns[i] + "': "@ + artifact_id),
        None => if has_oversized(files, sizes, max_size) {
            Some("  [🐘] 跳过大文件: "@ + artifact_id)
        } else {
            None
        },
    }
}

/// What is reported where this artifact is left out.
pub open spec fn exclusion_of(
    artifact: MavenArtifact,
    options: UploadOptions,
    sizes: Seq<Option<u64>>,
) -> Option<Seq<char>> {
    exclusion(
        artifact.group_id@,
        artifact.artifact_id@,
        file_views(artifact.files@),
        sizes,
        text::views(options.exclude@),
        options.max_size,
    )
}

/// Whether an artifact is left out, and what is reported then, given the sizes
/// of its files as far as they are known.
pub fn is_excluded(
    artifact: &MavenArtifact,
    options: &UploadOptions,
    sizes: &Vec<Option<u64>>,
) -> (r: Option<String>)
    requires
        sizes@.len() == artifact.files@.len(),
    ensures
        text::opt_view(r) == exclusion_of(*artifact, *options, sizes@),
{
    let ghost patterns = text::views(options.exclude@);
    let ghost files = file_views(artifact.files@);
    for i in 0..options.exclude.len()
        invariant
            patterns == text::views(options.exclude@),
            files == file_views(artifact.files@),
            first_match(patterns, artifact.group_id@, artifact.artifact_id@, 0) == first_match(
                patterns,
                artifact.group_id@,
                artifact.artifact_id@,
                i as int,
            ),
    {
        let pattern = options.exclude[i].as_str();
        assert(patterns[i as int] == pattern@);
        if text::contains(artifact.artifact_id.as_str(), pattern) || text::contains(
            artifact.group_id.as_str(),
            pattern,
        ) {
            let mut message = "  [🚫] 匹配排除规则 '".to_string();
            message.append(pattern);
            message.append("': ");
            message.append(artifact.artifact_id.as_str());
            return Some(message);
        }
    }
    for i in 0..artifact.files.len()
        invariant
            sizes@.len() == artifact.files@.len(),
            patterns == text::views(options.exclude@),
            files == file_views(artifact.files@),
            first_match(patterns, artifact.group_id@, artifact.artifact_id@, 0) is None,
            forall|j: int|
                0 <= j < i ==> !is_oversized(#[trigger] files[j], sizes@[j], options.max_size),
    {
        let file = &artifact.files[i];
        assert(files[i as int] == file_view(*file));
        if text::equals(file.extension.as_str(), "jar") || text::equals(
            file.extension.as_str(),
            "war",
        ) {
            if let Some(size) = sizes[i] {
                if size as u128 > options.max_size as u128 * 1024 * 1024 {
                    assert(is_oversized(files[i as int], sizes@[i as int], options.max_size));
                    let mut message = "  [🐘] 跳过大文件: ".to_string();
                    message.append(artifact.artifact_id.as_str());
                    return Some(message);
                }
            }
        }
    }
    assert(files.len() == artifact.files@.len());
    None
}

proof fn lemma_first_match(
    patterns: Seq<Seq<char>>,
    group_id: Seq<char>,
    artifact_id: Seq<char>,
    from: int,
)
    requires
        0 <= from,
    ensures
        match first_match(patterns, group_id, artifact_id, from) {
            Some(i) => from <= i < patterns.len() && matches_pattern(
                patterns[i],
                group_id,
                artifact_id,
            ),
            None => forall|i: int|
                from <= i < patterns.len() ==> !matches_pattern(
                    #[trigger] patterns[i],
                    group_id,
                    artifact_id,
                ),
        },
    decreases patterns.len() - from,
{
    if from < patterns.len() && !matches_pattern(patterns[from], group_id, artifact_id) {
        lemma_first_match(patterns, group_id, artifact_id, from + 1);
    }
}

/// An artifact is left out exactly where a pattern stands in its group or its
/// name, or one of its jar or war files has more bytes than the limit in
/// mebibytes.
pub proof fn law_exclusion(
    group_id: Seq<char>,
    artifact_id: Seq<char>,
    files: Seq<FileView>,
    sizes: Seq<Option<u64>>,
    patterns: Seq<Seq<char>>,
    max_size: u64,
)
    ensures
        exclusion(group_id, artifact_id, files, sizes, patterns, max_size) is Some <==> ((exists|
            i: int,
        |
            0 <= i < patterns.len() && (text::has(artifact_id, #[trigger] patterns[i]) || text::has(
                group_id,
                patterns[i],
            ))) || (exists|i: int|
            0 <= i < files.len() && ((#[trigger] files[i]).extension == "jar"@ || files[i].extension
                == "war"@) && sizes[i] is Some && sizes[i]->0 > max_size * 1048576)),
{
    lemma_first_match(patterns, group_id, artifact_id, 0);
    if exists|i: int|
        0 <= i < patterns.len() && (text::has(artifact_id, #[trigger] patterns[i]) || text::has(
            group_id,
            patterns[i],
        )) {
        let i = choose|i: int|
            0 <= i < patterns.len() && (text::has(artifact_id, #[trigger] patterns[i]) || text::has(
                group_id,
                patterns[i],
            ));
        assert(matches_pattern(patterns[i], group_id, artifact_id));
    }
    if has_oversized(files, sizes, max_size) {
        let i = choose|i: int|
            0 <= i < files.len() && is_oversized(#[trigger] files[i], sizes[i], max_size);
        assert(is_oversized(files[i], sizes[i], max_size));
    }
    if exists|i: int|
        0 <= i < files.len() && ((#[trigger] files[i]).extension == "jar"@ || files[i].extension
            == "war"@) && sizes[i] is Some && sizes[i]->0 > max_size * 1048576 {
        let i = choose|i: int|
            0 <= i < files.len() && ((#[trigger] files[i]).extension == "jar"@ || files[i].extension
                == "war"@) && sizes[i] is Some && sizes[i]->0 > max_size * 1048576;
        assert(is_oversized(files[i], sizes[i], max_size));
    }
}

proof fn lemma_first_match_at(
    patterns: Seq<Seq<char>>,
    group_id: Seq<char>,
    artifact_id: Seq<char>,
    from: int,
    n: int,
)
    requires
        0 <= from <= n <= patterns.len(),
        forall|i: int|
            from <= i < n ==> !matches_pattern(#[trigger] patterns[i], group_id, artifact_id),
        n < patterns.len() ==> matches_pattern(patterns[n], group_id, artifact_id),
    ensures
        first_match(patterns, group_id, artifact_id, from) == if n < patterns.len() {
            Some(n)
        } else {
            None
        },
    decreases n - from,
{
    if from < n {
        lemma_first_match_at(patterns, group_id, artifact_id, from + 1, n);
    }
}

/// What is reported of an artifact that is left out names it, and the first
/// pattern that it holds, if it holds one.
pub proof fn law_exclusion_report(
    group_id: Seq<char>,
    artifact_id: Seq<char>,
    files: Seq<FileView>,
    sizes: Seq<Option<u64>>,
    patterns: Seq<Seq<char>>,
    max_size: u64,
    n: int,
)
    requires
        0 <= n <= patterns.len(),
        forall|i: int|
            0 <= i < n ==> !(text::has(artifact_id, #[trigger] patterns[i]) || text::has(
                group_id,
                patterns[i],
            )),
        n < patterns.len() ==> text::has(artifact_id, patterns[n]) || text::has(
            group_id,
            patterns[n],
        ),
    ensures
        ({
            let reported = exclusion(group_id, artifact_id, files, sizes, patterns, max_size);
            &&& n < patterns.len() ==> reported == Some(
                "  [🚫] 匹配排除规则 '"@ + patterns[n] + "': "@ + artifact_id,
            )
            &&& n == patterns.len() && reported is Some ==> reported == Some(
                "  [🐘] 跳过大文件: "@ + artifact_id,
            )
        }),
{
    assert forall|i: int| 0 <= i < n implies !matches_pattern(
        #[trigger] patterns[i],
        group_id,
        artifact_id,
    ) by {
        assert(!(text::has(artifact_id, patterns[i]) || text::has(group_id, patterns[i])));
    }
    lemma_first_match_at(patterns, group_id, artifact_id, 0, n);
}

/// `DashMap`, the map that keeps track of what was seen.
#[verifier::external_type_specification]
#[verifier::external_body]
#[verifier::reject_recursive_types(K)]
#[verifier::reject_recursive_types(V)]
#[verifier::reject_recursive_types(S)]
pub struct ExDashMap<K, V, S>(dashmap::DashMap<K, V, S>);

/// The paths that a map has as keys, by their components.
pub uninterp spec fn seen_paths(map: dashmap::DashMap<Vec<Vec<u8>>, ()>) -> Set<Seq<Seq<u8>>>;

/// `DashMap::new`: the map is empty.
#[verifier::external_body]
fn new_seen() -> (map: dashmap::DashMap<Vec<Vec<u8>>, ()>)
    ensures
        seen_paths(map) == Set::<Seq<Seq<u8>>>::empty(),
{
    dashmap::DashMap::new()
}

/// `DashMap::insert`: the key is in the map afterwards, every other key is
/// where it was, and the result is what the key stood for before, if it was
/// there.
#[verifier::external_body]
fn insert_seen(map: &mut dashmap::DashMap<Vec<Vec<u8>>, ()>, path: Vec<Vec<u8>>) -> (before: Option<
    (),
>)
    ensures
        seen_paths(*final(map)) == seen_paths(*old(map)).insert(repository::path_view(path@)),
        before is Some <==> seen_paths(*old(map)).contains(repository::path_view(path@)),
{
    map.insert(path, ())
}

/// What comes of a file that describes an artifact.
#[derive(Debug)]
pub enum Visit {
    /// It describes none of the repository.
    Skip,
    /// The artifact is left out, with what is reported.
    Excluded(String),
    /// It was seen before.
    Repeated,
    /// The artifact is to be uploaded.
    Queue(MavenArtifact),
}

/// Goes through the files that describe artifacts.
pub struct Scanner {
    seen: dashmap::DashMap<Vec<Vec<u8>>, ()>,
}

impl View for Scanner {
    type V = Set<Seq<Seq<u8>>>;

    /// The files whose artifacts were queued.
    closed spec fn view(&self) -> Set<Seq<Seq<u8>>> {
        seen_paths(self.seen)
    }
}

/// The artifact is to be uploaded, given what was queued before.
pub open spec fn is_queued(
    queued: Set<Seq<Seq<u8>>>,
    path: Seq<Seq<u8>>,
    excluded: bool,
) -> bool {
    !excluded && !queued.contains(path)
}

/// What was queued once this file was visited.
pub open spec fn queued_after(
    queued: Set<Seq<Seq<u8>>>,
    path: Seq<Seq<u8>>,
    excluded: bool,
) -> Set<Seq<Seq<u8>>> {
    if excluded {
        queued
    } else {
        queued.insert(path)
    }
}

impl Scanner {
    /// A scanner that has seen nothing.
    pub fn new() -> (r: Self)
        ensures
            r@ == Set::<Seq<Seq<u8>>>::empty(),
    {
        Scanner { seen: new_seen() }
    }

    /// Takes a file that may describe an artifact, by the components of its
    /// path.
    pub fn visit(
        &mut self,
        path: Vec<Vec<u8>>,
        artifact: Result<MavenArtifact, ArtifactError>,
        sizes: &Vec<Option<u64>>,
        options: &UploadOptions,
    ) -> (r: Visit)
        requires
            artifact matches Ok(artifact) ==> sizes@.len() == artifact.files@.len(),
        ensures
            match artifact {
                Err(_) => r is Skip && final(self)@ == old(self)@,
                Ok(artifact) => {
                    let excluded = exclusion_of(artifact, *options, sizes@);
                    &&& final(self)@ == queued_after(
                        old(self)@,
                        repository::path_view(path@),
                        excluded is Some,
                    )
                    &&& match r {
                        Visit::Skip => false,
                        Visit::Excluded(message) => excluded == Some(message@),
                        Visit::Repeated => excluded is None && old(self)@.contains(
                            repository::path_view(path@),
                        ),
                        Visit::Queue(queued) => queued == artifact && is_queued(
                            old(self)@,
                            repository::path_view(path@),
                            excluded is Some,
                        ),
                    }
                },
            },
    {
        match artifact {
            Err(_) => Visit::Skip,
            Ok(artifact) => {
                if let Some(message) = is_excluded(&artifact, options, sizes) {
                    return Visit::Excluded(message);
                }
                match insert_seen(&mut self.seen, path) {
                    Some(_) => Visit::Repeated,
                    None => Visit::Queue(artifact),
                }
            },
        }
    }
}

/// An artifact is queued once: after a file was visited without its artifact
/// being left out, the file queues nothing, whatever else was queued since.
pub proof fn law_artifact_is_queued_once(
    queued: Set<Seq<Seq<u8>>>,
    path: Seq<Seq<u8>>,
    later: Set<Seq<Seq<u8>>>,
    excluded: bool,
)
    requires
        queued_after(queued, path, false).subset_of(later),
    ensures
        !is_queued(later, path, excluded),
{
    assert(queued_after(queued, path, false).contains(path));
}

/// The repository that a version goes to, with a slash at its end: snapshots
/// may have one of their own.
pub open spec fn base_of(
    version: Seq<char>,
    url: Seq<char>,
    snapshot_url: Option<Seq<char>>,
) -> Seq<char> {
    let raw = if text::ends(version, "-SNAPSHOT"@) {
        match snapshot_url {
            Some(snapshot_url) => snapshot_url,
            None => url,
        }
    } else {
        url
    };
    if text::ends(raw, "/"@) {
        raw
    } else {
        raw + "/"@
    }
}

/// The repository that a version goes to, with a slash at its end.
pub fn base_url(version: &str, options: &UploadOptions) -> (r: String)
    ensures
        r@ == base_of(version@, options.url@, text::opt_view(options.snapshot_url)),
{
    let mut raw = options.url.clone();
    if text::ends_with(version, "-SNAPSHOT") {
        if let Some(snapshot_url) = &options.snapshot_url {
            raw = snapshot_url.clone();
        }
    }
    if !text::ends_with(raw.as_str(), "/") {
        raw.append("/");
    }
    raw
}

/// Releases go to the repository for releases, whatever there is for snapshots.
pub proof fn law_releases_ignore_snapshot_url(
    version: Seq<char>,
    url: Seq<char>,
    snapshot_url: Option<Seq<char>>,
)
    requires
        !text::ends(version, "-SNAPSHOT"@),
    ensures
        base_of(version, url, snapshot_url) == base_of(version, url, None),
{
}

/// A slash at the end of an address makes no difference.
pub proof fn law_trailing_slash_is_optional(version: Seq<char>, url: Seq<char>)
    requires
        !text::ends(url, "/"@),
    ensures
        base_of(version, url + "/"@, None) == base_of(version, url, None),
{
    reveal_strlit("/");
    let slashed = url + "/"@;
    assert(slashed.subrange(slashed.len() - 1, slashed.len() as int) == "/"@);
}

/// The path of a group: its dots are slashes.
pub open spec fn group_path(group_id: Seq<char>) -> Seq<char> {
    group_id.map_values(
        |c: char|
            if c == '.' {
                '/'
            } else {
                c
            },
    )
}

/// Where a file goes.
pub open spec fn target_of(
    base: Seq<char>,
    group_id: Seq<char>,
    artifact_id: Seq<char>,
    version: Seq<char>,
    name: Seq<char>,
) -> Seq<char> {
    base + group_path(group_id) + "/"@ + artifact_id + "/"@ + version + "/"@ + name
}

fn group_directory(group_id: &str) -> (r: String)
    ensures
        r@ == group_path(group_id@),
{
    let chars = text::chars_of(group_id);
    let mut path = String::new();
    assert(path@ == group_path(group_id@).take(0));
    for i in 0..chars.len()
        invariant
            chars@ == group_id@,
            path@ == group_path(group_id@).take(i as int),
    {
        let c = chars[i];
        path.push(
            if c == '.' {
                '/'
            } else {
                c
            },
        );
        assert(path@ == group_path(group_id@).take(i + 1));
    }
    assert(group_path(group_id@).take(chars@.len() as int) == group_path(group_id@));
    path
}

/// Where a file of an artifact goes.
pub fn target_url(base: &str, artifact: &MavenArtifact, name: &str) -> (r: String)
    ensures
        r@ == target_of(
            base@,
            artifact.group_id@,
            artifact.artifact_id@,
            artifact.version@,
            name@,
        ),
{
    let mut url = base.to_string();
    url.append(group_directory(artifact.group_id.as_str()).as_str());
    url.append("/");
    url.append(artifact.artifact_id.as_str());
    url.append("/");
    url.append(artifact.version.as_str());
    url.append("/");
    url.append(name);
    url
}

proof fn lemma_group_path_joined(directories: Seq<Seq<char>>)
    requires
        forall|i: int| 0 <= i < directories.len() ==> !(#[trigger] directories[i]).contains('.'),
    ensures
        group_path(text::joined(directories, "."@)) == text::joined(directories, "/"@),
    decreases directories.len(),
{
    reveal_strlit(".");
    reveal_strlit("/");
    if directories.len() > 0 {
        let last = directories.last();
        assert(!last.contains('.'));
        assert(group_path(last) == last) by {
            assert forall|i: int| 0 <= i < last.len() implies group_path(last)[i] == last[i] by {
                assert(last.contains(last[i]));
            }
        }
        if directories.len() > 1 {
            let init = directories.drop_last();
            assert forall|i: int| 0 <= i < init.len() implies !(#[trigger] init[i]).contains(
                '.',
            ) by {
                assert(init[i] == directories[i]);
            }
            lemma_group_path_joined(init);
            let dotted = text::joined(init, "."@);
            assert(group_path(dotted + "."@ + last) == group_path(dotted) + "/"@ + group_path(last));
        }
    }
}

/// A file goes to the place in the repository that it has on disk, where no
/// directory of the group has a dot in its name.
pub proof fn law_target_mirrors_disk(base: Seq<char>, relative: Seq<Seq<char>>, name: Seq<char>)
    requires
        relative.len() >= 4,
        forall|i: int|
            0 <= i < relative.len() - 3 ==> !(#[trigger] relative[i]).contains('.'),
    ensures
        target_of(
            base,
            group_of(relative),
            relative[relative.len() - 3],
            relative[relative.len() - 2],
            name,
        ) == base + text::joined(relative.drop_last().push(name), "/"@),
{
    let n = relative.len() as int;
    let group = relative.take(n - 3);
    assert forall|i: int| 0 <= i < group.len() implies !(#[trigger] group[i]).contains('.') by {
        assert(group[i] == relative[i]);
    }
    lemma_group_path_joined(group);
    let whole = relative.drop_last().push(name);
    let above = whole.drop_last();
    let upper = above.drop_last();
    assert(upper.drop_last() == group);
    assert(upper.last() == relative[n - 3]);
    assert(above.last() == relative[n - 2]);
    assert(text::joined(upper, "/"@) == text::joined(group, "/"@) + "/"@ + relative[n - 3]);
    assert(text::joined(above, "/"@) == text::joined(upper, "/"@) + "/"@ + relative[n - 2]);
    assert(text::joined(whole, "/"@) == text::joined(above, "/"@) + "/"@ + name);
    assert(base + text::joined(whole, "/"@) == base + text::joined(group, "/"@) + "/"@ + relative[n
        - 3] + "/"@ + relative[n - 2] + "/"@ + name);
}

/// What is done at the end of an upload, in this order.
#[derive(Debug)]
pub enum Effect {
    /// The state of the file is recorded.
    Record,
    /// A line is reported.
    Report(String),
}

/// An effect, in terms of texts.
pub ghost enum EffectView {
    Record,
    Report(Seq<char>),
}

impl View for Effect {
    type V = EffectView;

    open spec fn view(&self) -> EffectView {
        match self {
            Effect::Record => EffectView::Record,
            Effect::Report(line) => EffectView::Report(line@),
        }
    }
}

/// What the effects say.
pub open spec fn effect_views(effects: Seq<Effect>) -> Seq<EffectView> {
    effects.map_values(|e: Effect| e@)
}

/// What to do next with a file.
#[derive(Debug)]
pub enum UploadStep {
    /// Look up what was recorded of it.
    CheckRecord,
    /// Ask the repository whether it has it.
    CheckRemote,
    /// Send it.
    Send,
    /// Nothing more is to be asked or sent.
    Finish(Vec<Effect>),
}

/// A step, in terms of texts.
pub ghost enum StepView {
    CheckRecord,
    CheckRemote,
    Send,
    Finish(Seq<EffectView>),
}

impl View for UploadStep {
    type V = StepView;

    open spec fn view(&self) -> StepView {
        match self {
            UploadStep::CheckRecord => StepView::CheckRecord,
            UploadStep::CheckRemote => StepView::CheckRemote,
            UploadStep::Send => StepView::Send,
            UploadStep::Finish(effects) => StepView::Finish(effect_views(effects@)),
        }
    }
}

/// What the repository says to a file that is sent.
#[derive(Debug)]
pub enum SendReply {
    /// A status code, the status as text, and what came with it.
    Status(u16, String, String),
    /// No reply, with the reason.
    Error(String),
}

/// The status reports success.
pub open spec fn is_success(code: u16) -> bool {
    200 <= code <= 299
}

/// The first step with a file: one that is to be sent in any case is not asked
/// for.
pub open spec fn first_step(force: bool) -> StepView {
    if force {
        StepView::Send
    } else {
        StepView::CheckRecord
    }
}

/// The step after the record was looked up.
pub open spec fn step_after_record(
    recorded: Option<u64>,
    modified: u64,
    name: Seq<char>,
) -> StepView {
    if recorded == Some(modified) {
        StepView::Finish(seq![EffectView::Report("  [-] 远程(DB)已存在: "@ + name)])
    } else {
        StepView::CheckRemote
    }
}

/// The step after the repository was asked, where there is no status without a
/// reply.
pub open spec fn step_after_remote(status: Option<u16>, name: Seq<char>) -> StepView {
    if status is Some && is_success(status->0) {
        StepView::Finish(
            seq![EffectView::Record, EffectView::Report("  [-] 远程已存在: "@ + name)],
        )
    } else {
        StepView::Send
    }
}

/// What is done after the file was sent; the success of checksums is not
/// reported.
pub open spec fn effects_after_send(
    reply: SendReply,
    name: Seq<char>,
    extension: Seq<char>,
) -> Seq<EffectView> {
    match reply {
        SendReply::Status(code, status, body) => if is_success(code) {
            if text::has(extension, "sha1"@) || text::has(extension, "md5"@) {
                seq![EffectView::Record]
            } else {
                seq![EffectView::Report("  [+] 上传成功: "@ + name), EffectView::Record]
            }
        } else {
            seq![EffectView::Report("  [❌] 失败 ("@ + status@ + "): "@ + name + " - "@ + body@)]
        },
        SendReply::Error(reason) => seq![EffectView::Report("  [!] 网络错误: "@ + reason@)],
    }
}

fn report(label: &str, value: &str) -> (r: Effect)
    ensures
        r@ == EffectView::Report(label@ + value@),
{
    let mut line = label.to_string();
    line.append(value);
    Effect::Report(line)
}

/// The first step with a file.
pub fn begin_upload(force: bool) -> (r: UploadStep)
    ensures
        r@ == first_step(force),
{
    if force {
        UploadStep::Send
    } else {
        UploadStep::CheckRecord
    }
}

/// The step after the record was looked up, for a file that was modified at
/// this time.
pub fn after_record(recorded: Option<u64>, modified: u64, name: &str) -> (r: UploadStep)
    ensures
        r@ == step_after_record(recorded, modified, name@),
{
    let unchanged: bool = match recorded {
        Some(time) => time == modified,
        None => false,
    };
    if unchanged {
        let effects: Vec<Effect> = vec![report("  [-] 远程(DB)已存在: ", name)];
        assert(effect_views(effects@) == seq![
            EffectView::Report("  [-] 远程(DB)已存在: "@ + name@),
        ]);
        UploadStep::Finish(effects)
    } else {
        UploadStep::CheckRemote
    }
}

/// The step after the repository was asked.
pub fn after_remote(status: Option<u16>, name: &str) -> (r: UploadStep)
    ensures
        r@ == step_after_remote(status, name@),
{
    let present: bool = match status {
        Some(code) => 200 <= code && code <= 299,
        None => false,
    };
    if present {
        let effects: Vec<Effect> = vec![Effect::Record, report("  [-] 远程已存在: ", name)];
        assert(effect_views(effects@) == seq![
            EffectView::Record,
            EffectView::Report("  [-] 远程已存在: "@ + name@),
        ]);
        UploadStep::Finish(effects)
    } else {
        UploadStep::Send
    }
}

/// What is done after the file was sent.
pub fn after_send(reply: &SendReply, name: &str, extension: &str) -> (r: Vec<Effect>)
    ensures
        effect_views(r@) == effects_after_send(*reply, name@, extension@),
{
    let mut effects: Vec<Effect> = Vec::new();
    match reply {
        SendReply::Status(code, status, body) => {
            if 200 <= *code && *code <= 299 {
                if !text::contains(extension, "sha1") && !text::contains(extension, "md5") {
                    effects.push(report("  [+] 上传成功: ", name));
                }
                effects.push(Effect::Record);
            } else {
                let mut line = "  [❌] 失败 (".to_string();
                line.append(status.as_str());
                line.append("): ");
                line.append(name);
                line.append(" - ");
                line.append(body.as_str());
                effects.push(Effect::Report(line));
            }
        },
        SendReply::Error(reason) => effects.push(report("  [!] 网络错误: ", reason.as_str())),
    }
    assert(effect_views(effects@) == effects_after_send(*reply, name@, extension@));
    effects
}

/// What is done with a file in the end, where the record, the repository and
/// the transfer would answer so.
pub open spec fn upload_effects(
    force: bool,
    recorded: Option<u64>,
    modified: u64,
    remote: Option<u16>,
    reply: SendReply,
    name: Seq<char>,
    extension: Seq<char>,
) -> Seq<EffectView> {
    let sent = effects_after_send(reply, name, extension);
    match first_step(force) {
        StepView::CheckRecord => match step_after_record(recorded, modified, name) {
            StepView::Finish(effects) => effects,
            _ => match step_after_remote(remote, name) {
                StepView::Finish(effects) => effects,
                _ => sent,
            },
        },
        _ => sent,
    }
}

/// A file that is recorded as it is stands untouched: neither the repository
/// nor a transfer makes a difference, and nothing new is recorded.
pub proof fn law_unchanged_file_is_skipped(
    modified: u64,
    remote: Option<u16>,
    reply: SendReply,
    name: Seq<char>,
    extension: Seq<char>,
)
    ensures
        upload_effects(false, Some(modified), modified, remote, reply, name, extension) == seq![
            EffectView::Report("  [-] 远程(DB)已存在: "@ + name),
        ],
{
}

/// With force, a file is sent whatever the record and the repository say.
pub proof fn law_force_always_sends(
    recorded: Option<u64>,
    modified: u64,
    remote: Option<u16>,
    reply: SendReply,
    name: Seq<char>,
    extension: Seq<char>,
)
    ensures
        upload_effects(true, recorded, modified, remote, reply, name, extension)
            == effects_after_send(reply, name, extension),
{
}

/// A file is recorded only where the repository said that it has it: when it
/// was asked, or when the file was sent.
pub proof fn law_record_means_present(
    force: bool,
    recorded: Option<u64>,
    modified: u64,
    remote: Option<u16>,
    reply: SendReply,
    name: Seq<char>,
    extension: Seq<char>,
)
    requires
        upload_effects(force, recorded, modified, remote, reply, name, extension).contains(
            EffectView::Record,
        ),
    ensures
        (remote is Some && 200 <= remote->0 <= 299) || (reply matches SendReply::Status(code, _, _)
            && 200 <= code <= 299),
{
    let effects = upload_effects(force, recorded, modified, remote, reply, name, extension);
    let i = effects.index_of(EffectView::Record);
    assert(effects[i] == EffectView::Record);
}

/// The file that failed to go over is not recorded, so that the next run sends
/// it.
pub proof fn law_failure_is_not_recorded(
    reply: SendReply,
    name: Seq<char>,
    extension: Seq<char>,
)
    requires
        !(reply matches SendReply::Status(code, _, _) && 200 <= code <= 299),
    ensures
        !effects_after_send(reply, name, extension).contains(EffectView::Record),
{
}

/// The files that describe artifacts.
pub proof fn law_pom_names(name: Seq<char>)
    ensures
        is_pom_name(name) <==> (name == "pom.xml"@ || exists|stem: Seq<char>|
            name == #[trigger] (stem + ".pom"@)),
{
    text::law_affixes(name, ".pom"@);
}

/// The extension of a file is what follows the prefix and one ASCII character.
pub proof fn law_extension(prefix: Seq<char>, c: char, extension: Seq<char>)
    ensures
        c as int <= 127 ==> extension_after(prefix + seq![c] + extension, prefix) == extension,
        c as int > 127 ==> extension_after(prefix + seq![c] + extension, prefix).len() == 0,
        extension_after(prefix, prefix).len() == 0,
{
    let name = prefix + seq![c] + extension;
    assert(name[prefix.len() as int] == c);
    assert(name.skip(prefix.len() as int + 1) == extension);
}

/// What the files of an artifact begin with, and what its path says of it.
pub proof fn law_coordinates(
    directories: Seq<Seq<char>>,
    artifact_id: Seq<char>,
    version: Seq<char>,
    name: Seq<char>,
)
    ensures
        group_of(directories + seq![artifact_id, version, name]) == text::joined(
            directories,
            "."@,
        ),
        file_prefix(artifact_id, version) == text::joined(seq![artifact_id, version], "-"@),
{
    let relative = directories + seq![artifact_id, version, name];
    assert(relative.take(relative.len() - 3) == directories);
    text::law_joined(seq![artifact_id], version, "-"@);
    text::law_joined(seq![], artifact_id, "-"@);
    assert(seq![artifact_id].push(version) == seq![artifact_id, version]);
}

proof fn lemma_ascii(c: char)
    requires
        (c as u32) < 0x80,
    ensures
        c as int <= 127,
{
}

/// Every file that is taken is a regular file of the directory, under its own
/// name, which is the prefix, one ASCII character and an extension; it is no
/// state of a Maven client.
pub proof fn law_files_are_of_the_artifact(
    entries: Seq<DirectoryEntry>,
    prefix: Seq<char>,
    k: int,
)
    requires
        0 <= k < files_of(entries, prefix).len(),
    ensures
        ({
            let file = files_of(entries, prefix)[k];
            &&& 0 <= file.entry < entries.len()
            &&& entries[file.entry].is_file
            &&& file.name == entries[file.entry].name@
            &&& file.extension.len() > 0
            &&& exists|c: char|
                c as int <= 127 && file.name == #[trigger] (prefix + seq![c] + file.extension)
            &&& !(text::has(file.name, "_remote.repositories"@))
            &&& !text::ends(file.name, ".lastUpdated"@)
        }),
    decreases entries.len(),
{
    let init = entries.drop_last();
    let file = files_of(entries, prefix)[k];
    if k < files_of(init, prefix).len() {
        law_files_are_of_the_artifact(init, prefix, k);
        assert(file == files_of(init, prefix)[k]);
        assert(init[file.entry] == entries[file.entry]);
    } else {
        let c = file.name[prefix.len() as int];
        assert(belongs(entries.last(), prefix));
        assert(file.name.subrange(0, prefix.len() as int) == prefix);
        lemma_ascii(c);
        assert(c as int <= 127 && file.name == prefix + seq![c] + file.extension);
    }
}

/// Every such file is taken.
pub proof fn law_files_are_complete(
    entries: Seq<DirectoryEntry>,
    prefix: Seq<char>,
    i: int,
    c: char,
    extension: Seq<char>,
)
    requires
        0 <= i < entries.len(),
        entries[i].is_file,
        entries[i].name@ == prefix + seq![c] + extension,
        c as int <= 127,
        extension.len() > 0,
        !(text::has(entries[i].name@, "_remote.repositories"@)),
        !text::ends(entries[i].name@, ".lastUpdated"@),
    ensures
        files_of(entries, prefix).contains(
            FileView { entry: i, name: entries[i].name@, extension },
        ),
    decreases entries.len(),
{
    let init = entries.drop_last();
    let wanted = FileView { entry: i, name: entries[i].name@, extension };
    let before = files_of(init, prefix);
    let files = files_of(entries, prefix);
    if i < init.len() {
        assert(init[i] == entries[i]);
        law_files_are_complete(init, prefix, i, c, extension);
        let k = before.index_of(wanted);
        assert(files[k] == wanted);
    } else {
        law_extension(prefix, c, extension);
        assert(entries[i].name@.subrange(0, prefix.len() as int) == prefix);
        assert(files[before.len() as int] == wanted);
    }
}

/// The files are taken in the order of the entries, each once.
pub proof fn law_files_keep_order(
    entries: Seq<DirectoryEntry>,
    prefix: Seq<char>,
    i: int,
    j: int,
)
    requires
        0 <= i < j < files_of(entries, prefix).len(),
    ensures
        files_of(entries, prefix)[i].entry < files_of(entries, prefix)[j].entry,
    decreases entries.len(),
{
    let init = entries.drop_last();
    if j < files_of(init, prefix).len() {
        law_files_keep_order(init, prefix, i, j);
    } else {
        law_files_are_of_the_artifact(init, prefix, i);
    }
}

/// The base of every address ends with a slash. It is the repository for
/// snapshots where there is one and the version is a snapshot, and the
/// repository for releases otherwise, with one slash more where it has none at
/// its end.
pub proof fn law_base(version: Seq<char>, url: Seq<char>, snapshot_url: Option<Seq<char>>)
    ensures
        base_of(version, url, snapshot_url).len() > 0,
        base_of(version, url, snapshot_url).last() == '/',
        ({
            let snapshot = exists|stem: Seq<char>| version == #[trigger] (stem + "-SNAPSHOT"@);
            let address = if snapshot && snapshot_url is Some {
                snapshot_url->0
            } else {
                url
            };
            if address.len() > 0 && address.last() == '/' {
                base_of(version, url, snapshot_url) == address
            } else {
                base_of(version, url, snapshot_url) == address.push('/')
            }
        }),
{
    reveal_strlit("/");
    text::law_affixes(version, "-SNAPSHOT"@);
    let address = if text::ends(version, "-SNAPSHOT"@) && snapshot_url is Some {
        snapshot_url->0
    } else {
        url
    };
    assert("/"@ == seq!['/']);
    assert(address + "/"@ == address.push('/'));
    if address.len() > 0 {
        let last = address.subrange(address.len() - 1, address.len() as int);
        assert(last == seq![address.last()]);
        assert(last[0] == address.last());
        assert(seq!['/'][0] == '/');
    }
}

/// The path of a group has a slash for every dot, and is the group otherwise.
pub proof fn law_group_path(group_id: Seq<char>, i: int)
    requires
        0 <= i < group_id.len(),
    ensures
        group_path(group_id).len() == group_id.len(),
        group_id[i] == '.' ==> group_path(group_id)[i] == '/',
        group_id[i] != '.' ==> group_path(group_id)[i] == group_id[i],
{
}

/// Behind the base, the address of a file has the path of the group, the name of
/// the artifact, its version and the name of the file, parted by slashes.
pub proof fn law_target(
    base: Seq<char>,
    group_id: Seq<char>,
    artifact_id: Seq<char>,
    version: Seq<char>,
    name: Seq<char>,
)
    ensures
        target_of(base, group_id, artifact_id, version, name) == base + text::joined(
            seq![group_path(group_id), artifact_id, version, name],
            "/"@,
        ),
{
    let group = group_path(group_id);
    let slash = "/"@;
    text::law_joined(seq![], group, slash);
    text::law_joined(seq![group], artifact_id, slash);
    text::law_joined(seq![group, artifact_id], version, slash);
    text::law_joined(seq![group, artifact_id, version], name, slash);
    assert(seq![group].push(artifact_id) == seq![group, artifact_id]);
    assert(seq![group, artifact_id].push(version) == seq![group, artifact_id, version]);
    assert(seq![group, artifact_id, version].push(name) == seq![group, artifact_id, version, name]);
    assert(base + (group + slash + artifact_id + slash + version + slash + name) == base + group
        + slash + artifact_id + slash + version + slash + name);
}

/// What is asked before a file is sent: nothing with force; otherwise the
/// record, which settles it only by the very time of the file; otherwise the
/// repository, which settles it only by a status of success.
pub proof fn law_steps(
    recorded: Option<u64>,
    modified: u64,
    status: Option<u16>,
    name: Seq<char>,
)
    ensures
        first_step(true) == StepView::Send,
        first_step(false) == StepView::CheckRecord,
        recorded == Some(modified) ==> step_after_record(recorded, modified, name)
            == StepView::Finish(seq![EffectView::Report("  [-] 远程(DB)已存在: "@ + name)]),
        recorded != Some(modified) ==> step_after_record(recorded, modified, name)
            == StepView::CheckRemote,
        status is Some && 200 <= status->0 <= 299 ==> step_after_remote(status, name)
            == StepView::Finish(
            seq![EffectView::Record, EffectView::Report("  [-] 远程已存在: "@ + name)],
        ),
        !(status is Some && 200 <= status->0 <= 299) ==> step_after_remote(status, name)
            == StepView::Send,
{
}

/// A file that was sent is recorded exactly where the status is one of success,
/// and something is said of it except where a checksum went over well.
pub proof fn law_after_send(reply: SendReply, name: Seq<char>, extension: Seq<char>)
    ensures
        ({
            let effects = effects_after_send(reply, name, extension);
            let checksum = text::has(extension, "sha1"@) || text::has(extension, "md5"@);
            match reply {
                SendReply::Status(code, status, body) => if 200 <= code <= 299 {
                    if checksum {
                        effects == seq![EffectView::Record]
                    } else {
                        effects == seq![
                            EffectView::Report("  [+] 上传成功: "@ + name),
                            EffectView::Record,
                        ]
                    }
                } else {
                    effects == seq![
                        EffectView::Report(
                            "  [❌] 失败 ("@ + status@ + "): "@ + name + " - "@ + body@,
                        ),
                    ]
                },
                SendReply::Error(reason) => effects == seq![
                    EffectView::Report("  [!] 网络错误: "@ + reason@),
                ],
            }
        }),
{
}

/// A file queues its artifact exactly where the artifact is not left out and the
/// file did not queue it before; visiting it adds it to what queued, unless its
/// artifact is left out, and takes nothing away.
pub proof fn law_queue(
    queued: Set<Seq<Seq<u8>>>,
    path: Seq<Seq<u8>>,
    other: Seq<Seq<u8>>,
    excluded: bool,
)
    ensures
        is_queued(queued, path, excluded) <==> !excluded && !queued.contains(path),
        queued_after(queued, path, excluded).contains(other) <==> queued.contains(other) || (
        !excluded && other == path),
{
}

/// What is said of a file that is no part of an artifact.
pub proof fn law_artifact_errors(error: ArtifactError)
    ensures
        error.text() == "路径不在根目录下"@ <==> error is OutsideRoot,
        error.text() == "目录结构太浅"@ <==> error is TooShallow,
{
    reveal_strlit("路径不在根目录下");
    reveal_strlit("目录结构太浅");
    assert("路径不在根目录下"@.len() != "目录结构太浅"@.len());
}

} // verus!
