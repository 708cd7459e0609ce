//! Turning file events of a sandbox into changed files.

use crate::review::changes_tab::FileStatus;
use crate::text;
use crate::text_map;
use crate::text_map::TextMap;
use crate::text_set::TextSet;
use vstd::prelude::*;

verus! {

/// The event kind for a deleted file.
pub const DELETE_KIND: u8 = 3;

/// The constant `shuru_proto::watch_kind::DELETE`.
#[verifier::external_body]
fn delete_kind() -> (k: u8)
    ensures
        k == DELETE_KIND,
{
    shuru_proto::watch_kind::DELETE
}

/// A matcher of the `ignore` crate.
#[verifier::external_type_specification]
#[verifier::external_body]
pub struct ExGitignore(ignore::gitignore::Gitignore);

/// A matcher that is being built.
#[verifier::external_type_specification]
#[verifier::external_body]
pub struct ExGitignoreBuilder(ignore::gitignore::GitignoreBuilder);

/// The root of a builder and the rules that it holds, as they were written.
pub uninterp spec fn builder_rules(builder: ignore::gitignore::GitignoreBuilder) -> (
    Seq<char>,
    Seq<Seq<char>>,
);

/// The root of a matcher and the rules that it holds, as they were written.
pub uninterp spec fn matcher_rules(matcher: ignore::gitignore::Gitignore) -> (
    Seq<char>,
    Seq<Seq<char>>,
);

/// The rules that a line of an ignore file gives: one, or none.
pub uninterp spec fn line_rules(line: Seq<char>) -> Seq<Seq<char>>;

/// Whether a matcher can be built for a root from these rules.
pub uninterp spec fn rules_build(root: Seq<char>, rules: Seq<Seq<char>>) -> bool;

/// Whether a matcher that was built for a root, from these rules, ignores a file at a path below
/// that root, itself or by one of its directories.
pub uninterp spec fn rules_ignore(root: Seq<char>, rules: Seq<Seq<char>>, path: Seq<char>) -> bool;

/// A root as a builder keeps it: without a `./` at its start.
pub open spec fn kept_root(root: Seq<char>) -> Seq<char> {
    if text::has_prefix(root, "./"@) {
        root.skip(2)
    } else {
        root
    }
}

/// Calls `GitignoreBuilder::new`: a builder without any rule, for `root` without a `./` at its
/// start.
#[verifier::external_body]
fn new_builder(root: &str) -> (builder: ignore::gitignore::GitignoreBuilder)
    ensures
        builder_rules(builder) == (kept_root(root@), Seq::<Seq<char>>::empty()),
{
    ignore::gitignore::GitignoreBuilder::new(root)
}

/// Calls `GitignoreBuilder::add_line` on a line that comes from no file. The builder then holds
/// the rule of the line too, where it has one: a comment, a blank line and what is no glob have
/// none.
#[verifier::external_body]
fn add_line(builder: &mut ignore::gitignore::GitignoreBuilder, line: &str)
    ensures
        builder_rules(*final(builder)) == (
            builder_rules(*old(builder)).0,
            builder_rules(*old(builder)).1 + line_rules(line@),
        ),
{
    let _ = builder.add_line(None, line);
}

/// Calls `GitignoreBuilder::build`: a matcher with the rules of the builder. It has the builder's
/// root too, unless there is no rule; all matchers without rules are the same.
#[verifier::external_body]
fn build(builder: &ignore::gitignore::GitignoreBuilder) -> (r: Option<
    ignore::gitignore::Gitignore,
>)
    ensures
        r is Some == rules_build(builder_rules(*builder).0, builder_rules(*builder).1),
        r matches Some(matcher) ==> matcher_rules(matcher).1 == builder_rules(*builder).1,
        r matches Some(matcher) ==> builder_rules(*builder).1.len() > 0 ==> matcher_rules(
            matcher,
        ).0 == builder_rules(*builder).0,
{
    builder.build().ok()
}

/// Whether a path can be matched below a root. The outside function panics on a path that is not
/// below the root: on one that begins with a slash, and, below the empty root, on one from which
/// a slash is still in front after `./` and a slash are taken away.
pub open spec fn can_be_matched(root: Seq<char>, path: Seq<char>) -> bool {
    !text::has_prefix(path, "/"@) && (root.len() > 0 || !text::has_prefix(path, ".///"@))
}

/// Calls `Gitignore::matched_path_or_any_parents` on a file below the matcher's root. The result
/// is named; a matcher without rules ignores nothing.
#[verifier::external_body]
fn is_ignored(matcher: &ignore::gitignore::Gitignore, root: &str, path: &str) -> (r: bool)
    requires
        matcher_rules(*matcher).1.len() > 0 ==> matcher_rules(*matcher).0 == kept_root(root@),
        can_be_matched(root@, path@),
    ensures
        r == rules_ignore(root@, matcher_rules(*matcher).1, path@),
{
    let full = std::path::Path::new(root).join(path);
    matcher.matched_path_or_any_parents(full, false).is_ignore()
}

/// The patterns that are ignored in every workspace.
pub open spec fn builtin_patterns() -> Seq<Seq<char>> {
    seq![
        ".git"@,
        "node_modules"@,
        "__pycache__"@,
        ".venv"@,
        "target/"@,
        ".DS_Store"@,
        ".next"@,
        "dist/"@,
        "build/"@,
    ]
}

/// A line without the byte order marks at its start.
pub open spec fn without_marks(s: Seq<char>) -> Seq<char>
    decreases s.len(),
{
    if s.len() > 0 && s[0] == '\u{feff}' {
        without_marks(s.drop_first())
    } else {
        s
    }
}

/// The lines of an ignore file as they count: byte order marks go from its first line.
pub open spec fn file_lines(lines: Seq<Seq<char>>) -> Seq<Seq<char>> {
    if lines.len() == 0 {
        lines
    } else {
        lines.update(0, without_marks(lines[0]))
    }
}

/// The rules that some lines give.
pub open spec fn rules_of(lines: Seq<Seq<char>>) -> Seq<Seq<char>>
    decreases lines.len(),
{
    if lines.len() == 0 {
        seq![]
    } else {
        rules_of(lines.drop_last()) + line_rules(lines.last())
    }
}

/// The lines for a workspace: those of its ignore file, then the user's.
pub open spec fn workspace_lines(
    project: Seq<Seq<char>>,
    global: Seq<Seq<char>>,
) -> Seq<Seq<char>> {
    file_lines(project) + file_lines(global)
}

/// The directory that paths are matched below.
pub open spec fn ignore_root(host_mount_path: Option<Seq<char>>) -> Seq<char> {
    match host_mount_path {
        Some(host) => host,
        None => "/workspace"@,
    }
}

/// What is ignored in a workspace: what the built-in patterns match, whatever the ignore files
/// say, and what these match.
pub struct IgnoreMatcher {
    root: String,
    builtin: ignore::gitignore::Gitignore,
    files: Option<ignore::gitignore::Gitignore>,
}

/// A matcher was built for a root.
spec fn built_for(matcher: ignore::gitignore::Gitignore, root: Seq<char>) -> bool {
    matcher_rules(matcher).1.len() > 0 ==> matcher_rules(matcher).0 == kept_root(root)
}

impl IgnoreMatcher {
    #[verifier::type_invariant]
    spec fn wf(self) -> bool {
        built_for(self.builtin, self.root@) && (self.files matches Some(m) ==> built_for(
            m,
            self.root@,
        ))
    }

    pub closed spec fn root(&self) -> Seq<char> {
        self.root@
    }

    /// The rules that always hold.
    pub closed spec fn builtin_rules(&self) -> Seq<Seq<char>> {
        matcher_rules(self.builtin).1
    }

    /// The rules of the ignore files, where they could be built.
    pub closed spec fn file_rules(&self) -> Option<Seq<Seq<char>>> {
        match self.files {
            Some(m) => Some(matcher_rules(m).1),
            None => None,
        }
    }

    /// Whether a file of the workspace is ignored.
    pub open spec fn skips(&self, path: Seq<char>) -> bool {
        rules_ignore(self.root(), self.builtin_rules(), path) || (self.file_rules() matches Some(
            rules,
        ) && rules_ignore(self.root(), rules, path))
    }

    /// Whether a file of the workspace is ignored.
    pub fn ignores(&self, path: &str) -> (r: bool)
        requires
            can_be_matched(self.root(), path@),
        ensures
            r == self.skips(path@),
    {
        proof {
            use_type_invariant(self);
        }
        if is_ignored(&self.builtin, self.root.as_str(), path) {
            return true;
        }
        match &self.files {
            Some(m) => is_ignored(m, self.root.as_str(), path),
            None => false,
        }
    }
}

fn trim_marks(s: &str) -> (r: String)
    ensures
        r@ == without_marks(s@),
{
    let chars = text::to_chars(s);
    let mut n: usize = 0;
    assert(s@.skip(0) =~= s@);
    while n < chars.len() && chars[n] == '\u{feff}'
        invariant
            n <= chars@.len(),
            chars@ == s@,
            without_marks(s@) == without_marks(s@.skip(n as int)),
        decreases chars@.len() - n,
    {
        assert(s@.skip(n as int).drop_first() =~= s@.skip(n + 1));
        n += 1;
    }
    assert(s@.skip(n as int) =~= chars@.subrange(n as int, chars@.len() as int));
    text::from_chars(&chars, n, chars.len())
}

fn add_lines(builder: &mut ignore::gitignore::GitignoreBuilder, lines: &Vec<String>)
    ensures
        builder_rules(*final(builder)) == (
            builder_rules(*old(builder)).0,
            builder_rules(*old(builder)).1 + rules_of(text::views(lines@)),
        ),
{
    let ghost all = text::views(lines@);
    let ghost before = builder_rules(*builder);
    let mut i: usize = 0;
    assert(all.take(0) =~= seq![]);
    assert(before.1 + rules_of(all.take(0)) =~= before.1);
    while i < lines.len()
        invariant
            i <= lines@.len() == all.len(),
            all == text::views(lines@),
            builder_rules(*builder) == (before.0, before.1 + rules_of(all.take(i as int))),
        decreases lines@.len() - i,
    {
        assert(all.take(i + 1).drop_last() =~= all.take(i as int));
        assert(before.1 + rules_of(all.take(i + 1)) =~= (before.1 + rules_of(all.take(i as int)))
            + line_rules(all[i as int]));
        add_line(builder, lines[i].as_str());
        i += 1;
    }
    assert(all.take(i as int) =~= all);
}

fn add_file(builder: &mut ignore::gitignore::GitignoreBuilder, lines: &Vec<String>)
    ensures
        builder_rules(*final(builder)) == (
            builder_rules(*old(builder)).0,
            builder_rules(*old(builder)).1 + rules_of(file_lines(text::views(lines@))),
        ),
{
    let mut counted: Vec<String> = Vec::new();
    let mut i: usize = 0;
    while i < lines.len()
        invariant
            i <= lines@.len(),
            counted@.len() == i,
            forall|j: int|
                0 <= j < i ==> (#[trigger] counted@[j])@ == (if j == 0 {
                    without_marks(lines@[0]@)
                } else {
                    lines@[j]@
                }),
        decreases lines@.len() - i,
    {
        if i == 0 {
            counted.push(trim_marks(lines[0].as_str()));
        } else {
            counted.push(lines[i].clone());
        }
        i += 1;
    }
    assert(text::views(counted@) =~= file_lines(text::views(lines@)));
    add_lines(builder, &counted);
}

proof fn lemma_rules_of_concat(a: Seq<Seq<char>>, b: Seq<Seq<char>>)
    ensures
        rules_of(a + b) == rules_of(a) + rules_of(b),
    decreases b.len(),
{
    if b.len() == 0 {
        assert(a + b =~= a);
        assert(rules_of(a) + rules_of(b) =~= rules_of(a));
    } else {
        assert((a + b).drop_last() =~= a + b.drop_last());
        lemma_rules_of_concat(a, b.drop_last());
        assert(rules_of(a + b) =~= rules_of(a) + rules_of(b));
    }
}

fn pattern_lines() -> (lines: Vec<String>)
    ensures
        text::views(lines@) == builtin_patterns(),
{
    let mut lines: Vec<String> = Vec::new();
    lines.push(".git".to_owned());
    lines.push("node_modules".to_owned());
    lines.push("__pycache__".to_owned());
    lines.push(".venv".to_owned());
    lines.push("target/".to_owned());
    lines.push(".DS_Store".to_owned());
    lines.push(".next".to_owned());
    lines.push("dist/".to_owned());
    lines.push("build/".to_owned());
    assert(text::views(lines@) =~= builtin_patterns());
    lines
}

/// A matcher for some lines.
fn build_from(root: &str, lines: &Vec<String>) -> (r: Option<ignore::gitignore::Gitignore>)
    ensures
        r is Some == rules_build(kept_root(root@), rules_of(text::views(lines@))),
        r matches Some(m) ==> built_for(m, root@) && matcher_rules(m).1 == rules_of(
            text::views(lines@),
        ),
{
    let mut builder = new_builder(root);
    add_lines(&mut builder, lines);
    assert(builder_rules(builder).1 =~= rules_of(text::views(lines@)));
    build(&builder)
}

/// The matcher of the built-in patterns. Where these do not build, only git's own directory is
/// ignored.
fn build_builtin(root: &str) -> (r: Option<ignore::gitignore::Gitignore>)
    ensures
        ({
            let rules = rules_of(builtin_patterns());
            let least = rules_of(seq![".git"@]);
            match r {
                Some(m) => built_for(m, root@) && if rules_build(kept_root(root@), rules) {
                    matcher_rules(m).1 == rules
                } else {
                    rules_build(kept_root(root@), least) && matcher_rules(m).1 == least
                },
                None => !rules_build(kept_root(root@), rules) && !rules_build(
                    kept_root(root@),
                    least,
                ),
            }
        }),
{
    match build_from(root, &pattern_lines()) {
        Some(matcher) => Some(matcher),
        None => {
            let mut least: Vec<String> = Vec::new();
            least.push(".git".to_owned());
            assert(text::views(least@) =~= seq![".git"@]);
            build_from(root, &least)
        },
    }
}

/// The matcher for a workspace: built-in patterns, which always hold, and the lines of the
/// project's ignore file and of the user's. Where the built-in patterns do not build, git's own
/// directory stands for them; where the files do not, they are passed over.
pub fn build_ignore_matcher(
    host_mount_path: Option<&str>,
    project: &Vec<String>,
    global: &Vec<String>,
) -> (r: Option<IgnoreMatcher>)
    ensures
        ({
            let root = ignore_root(
                match host_mount_path {
                    Some(h) => Some(h@),
                    None => None,
                },
            );
            let builtin = rules_of(builtin_patterns());
            let least = rules_of(seq![".git"@]);
            let files = rules_of(workspace_lines(text::views(project@), text::views(global@)));
            match r {
                Some(m) => {
                    &&& m.root() == root
                    &&& if rules_build(kept_root(root), builtin) {
                        m.builtin_rules() == builtin
                    } else {
                        rules_build(kept_root(root), least) && m.builtin_rules() == least
                    }
                    &&& m.file_rules() == (if rules_build(kept_root(root), files) {
                        Some(files)
                    } else {
                        None
                    })
                },
                None => !rules_build(kept_root(root), builtin) && !rules_build(
                    kept_root(root),
                    least,
                ),
            }
        }),
{
    let root = match host_mount_path {
        Some(host) => host,
        None => "/workspace",
    };
    let builtin = match build_builtin(root) {
        Some(matcher) => matcher,
        None => return None,
    };
    let mut builder = new_builder(root);
    add_file(&mut builder, project);
    add_file(&mut builder, global);
    proof {
        let a = file_lines(text::views(project@));
        let b = file_lines(text::views(global@));
        lemma_rules_of_concat(a, b);
        assert(builder_rules(builder).1 =~= rules_of(a + b));
    }
    let files = build(&builder);
    Some(IgnoreMatcher { root: root.to_owned(), builtin, files })
}

/// What the built-in patterns match is ignored, whatever the ignore files say.
pub proof fn law_builtins_hold(matcher: IgnoreMatcher, path: Seq<char>)
    requires
        rules_ignore(matcher.root(), matcher.builtin_rules(), path),
    ensures
        matcher.skips(path),
{
}

/// What a look at the host's version of a file found.
#[derive(Clone, Copy, Debug, PartialEq, Eq, Structural)]
pub enum HostProbe {
    Found,
    NotFound,
    Failed,
}

/// Whether the host has the file. A look that failed for another reason than that the file is
/// not there counts as found; without a host directory there is no file.
pub open spec fn probe_exists(mounted: bool, probe: Option<HostProbe>) -> bool {
    mounted && (probe == Some(HostProbe::Found) || probe == Some(HostProbe::Failed))
}

/// What became of a file: `None` where neither side has it.
pub open spec fn outcome(kind: u8, host_exists: bool) -> Option<FileStatus> {
    if kind == DELETE_KIND {
        if host_exists {
            Some(FileStatus::Deleted)
        } else {
            None
        }
    } else if host_exists {
        Some(FileStatus::Modified)
    } else {
        Some(FileStatus::Added)
    }
}

/// What a batch of events came to.
#[derive(Debug)]
pub struct DiffResult {
    pub dirty_paths: TextSet,
    pub updated_files: TextMap<FileStatus>,
    pub removed_paths: TextSet,
}

impl DiffResult {
    /// Whether there is anything to tell.
    pub fn is_news(&self) -> (r: bool)
        ensures
            r == (self.updated_files.entries().len() > 0 || self.removed_paths.order().len() > 0),
    {
        self.updated_files.len() > 0 || !self.removed_paths.is_empty()
    }
}

/// The outcome for a dirty path.
pub open spec fn path_outcome(
    dirty: Map<Seq<char>, u8>,
    probes: Map<Seq<char>, HostProbe>,
    mounted: bool,
    path: Seq<char>,
) -> Option<FileStatus> {
    outcome(dirty[path], probe_exists(mounted, text_map::find(probes, path)))
}

/// Whether a path is told as updated: it has a status, and is not deleted again.
pub open spec fn is_told(status: Option<FileStatus>, known: Option<FileStatus>) -> bool {
    status is Some && !(status == Some(FileStatus::Deleted) && known == Some(FileStatus::Deleted))
}

/// What a batch comes to, path by path.
pub open spec fn classified(
    dirty: Map<Seq<char>, u8>,
    probes: Map<Seq<char>, HostProbe>,
    mounted: bool,
    before: Map<Seq<char>, FileStatus>,
    after: Map<Seq<char>, FileStatus>,
    r: DiffResult,
) -> bool {
    forall|path: Seq<char>|
        #![trigger dirty.contains_key(path)]
        #![trigger text_map::find(r.updated_files@, path)]
        #![trigger r.removed_paths@.contains(path)]
        #![trigger text_map::find(after, path)]
        {
            let status = path_outcome(dirty, probes, mounted, path);
            let known = text_map::find(before, path);
            let told = text_map::find(r.updated_files@, path);
            let now = text_map::find(after, path);
            let gone = r.removed_paths@.contains(path);
            if dirty.contains_key(path) {
                &&& now == status
                &&& gone == status is None
                &&& told == (if is_told(status, known) {
                    status
                } else {
                    None
                })
            } else {
                now == known && !gone && told is None
            }
        }
}

/// Settles the status of every dirty path from its last event and the host's version, and keeps
/// the statuses known so far up to date.
pub fn classify_changes(
    dirty: &TextMap<u8>,
    probes: &TextMap<HostProbe>,
    mounted: bool,
    known: &mut TextMap<FileStatus>,
) -> (r: DiffResult)
    ensures
        forall|path: Seq<char>|
            #![trigger r.dirty_paths@.contains(path)]
            r.dirty_paths@.contains(path) == dirty@.contains_key(path),
        forall|path: Seq<char>|
            #![trigger r.removed_paths@.contains(path)]
            r.removed_paths@.contains(path) == (dirty@.contains_key(path) && path_outcome(
                dirty@,
                probes@,
                mounted,
                path,
            ) is None),
        forall|path: Seq<char>|
            #![trigger text_map::find(r.updated_files@, path)]
            text_map::find(r.updated_files@, path) == (if dirty@.contains_key(path) && is_told(
                path_outcome(dirty@, probes@, mounted, path),
                text_map::find(old(known)@, path),
            ) {
                path_outcome(dirty@, probes@, mounted, path)
            } else {
                None
            }),
        forall|path: Seq<char>|
            #![trigger text_map::find(final(known)@, path)]
            text_map::find(final(known)@, path) == (if dirty@.contains_key(path) {
                path_outcome(dirty@, probes@, mounted, path)
            } else {
                text_map::find(old(known)@, path)
            }),
        classified(dirty@, probes@, mounted, old(known)@, final(known)@, r),
{
    let mut dirty_paths = TextSet::new();
    let mut updated_files: TextMap<FileStatus> = TextMap::new();
    let mut removed_paths = TextSet::new();
    let ghost before = known@;
    let ghost entries = dirty.entries();
    let mut i: usize = 0;
    assert forall|path: Seq<char>| text_map::place(entries, path) >= 0 by {
        text_map::lemma_place(entries, path);
    }
    assert forall|path: Seq<char>|
        #![trigger text_map::find(updated_files@, path)]
        text_map::find(updated_files@, path) is None by {
        text_map::lemma_place(updated_files.entries(), path);
    }
    while i < dirty.len()
        invariant
            i <= entries.len(),
            entries == dirty.entries(),
            forall|path: Seq<char>|
                #![trigger dirty_paths@.contains(path)]
                dirty_paths@.contains(path) == (text_map::place(entries, path) < i),
            forall|path: Seq<char>|
                #![trigger removed_paths@.contains(path)]
                removed_paths@.contains(path) == (text_map::place(entries, path) < i
                    && path_outcome(dirty@, probes@, mounted, path) is None),
            forall|path: Seq<char>|
                #![trigger text_map::find(updated_files@, path)]
                text_map::find(updated_files@, path) == (if text_map::place(entries, path) < i
                    && is_told(
                    path_outcome(dirty@, probes@, mounted, path),
                    text_map::find(before, path),
                ) {
                    path_outcome(dirty@, probes@, mounted, path)
                } else {
                    None
                }),
            forall|path: Seq<char>|
                #![trigger text_map::find(known@, path)]
                text_map::find(known@, path) == (if text_map::place(entries, path) < i {
                    path_outcome(dirty@, probes@, mounted, path)
                } else {
                    text_map::find(before, path)
                }),
        decreases entries.len() - i,
    {
        let path = dirty.key(i);
        let kind: u8 = dirty.value(i);
        proof {
            use_type_invariant(&dirty);
            text_map::lemma_place_is(entries, path@, i as int);
            assert forall|other: Seq<char>| text_map::place(entries, other) == i implies other
                == path@ by {
                text_map::lemma_place(entries, other);
            }
        }
        let probe = probes.get(path);
        let host_exists = mounted && (match probe {
            Some(HostProbe::Found) => true,
            Some(HostProbe::Failed) => true,
            _ => false,
        });
        let sandbox_exists = kind != delete_kind();
        let previous = known.get(path);
        assert(dirty@[path@] == kind);
        proof {
            text_map::lemma_find(known@, path@, FileStatus::Added);
            text_map::lemma_find(known@, path@, FileStatus::Modified);
            text_map::lemma_find(known@, path@, FileStatus::Deleted);
            text_map::lemma_find(updated_files@, path@, FileStatus::Added);
            text_map::lemma_find(updated_files@, path@, FileStatus::Modified);
            text_map::lemma_find(updated_files@, path@, FileStatus::Deleted);
        }
        dirty_paths.insert(path);
        if !sandbox_exists && !host_exists {
            assert(path_outcome(dirty@, probes@, mounted, path@) is None);
            known.remove(path);
            removed_paths.insert(path);
        } else {
            let status = if !sandbox_exists {
                FileStatus::Deleted
            } else if host_exists {
                FileStatus::Modified
            } else {
                FileStatus::Added
            };
            assert(path_outcome(dirty@, probes@, mounted, path@) == Some(status));
            known.insert(path, status);
            let repeated = status == FileStatus::Deleted && (match previous {
                Some(FileStatus::Deleted) => true,
                _ => false,
            });
            if !repeated {
                updated_files.insert(path, status);
            }
        }
        i += 1;
    }
    assert forall|path: Seq<char>| dirty@.contains_key(path) == (text_map::place(entries, path)
        < i) by {
        text_map::lemma_place(entries, path);
    }
    DiffResult { dirty_paths, updated_files, removed_paths }
}

/// A file that the sandbox still has is told every time it changes, whatever was known of it: as
/// modified where the host has it too, else as added. A file that is gone from the sandbox is
/// told as deleted where the host has it and it was not known as deleted, and is taken off the
/// list where the host has none. Paths without an event are told of in no way.
pub proof fn law_every_change_is_told(
    dirty: Map<Seq<char>, u8>,
    probes: Map<Seq<char>, HostProbe>,
    mounted: bool,
    before: Map<Seq<char>, FileStatus>,
    after: Map<Seq<char>, FileStatus>,
    r: DiffResult,
    path: Seq<char>,
)
    requires
        classified(dirty, probes, mounted, before, after, r),
    ensures
        ({
            let on_host = mounted && probes.contains_key(path) && probes[path]
                != HostProbe::NotFound;
            let told = r.updated_files@;
            let gone = r.removed_paths@.contains(path);
            &&& dirty.contains_key(path) && dirty[path] != DELETE_KIND ==> {
                &&& told.contains_key(path)
                &&& told[path] == (if on_host {
                    FileStatus::Modified
                } else {
                    FileStatus::Added
                })
                &&& after.contains_key(path)
                &&& after[path] == told[path]
                &&& !gone
            }
            &&& dirty.contains_key(path) && dirty[path] == DELETE_KIND && on_host ==> {
                &&& told.contains_key(path) <==> !(before.contains_key(path) && before[path]
                    == FileStatus::Deleted)
                &&& told.contains_key(path) ==> told[path] == FileStatus::Deleted
                &&& after.contains_key(path)
                &&& after[path] == FileStatus::Deleted
                &&& !gone
            }
            &&& dirty.contains_key(path) && dirty[path] == DELETE_KIND && !on_host ==> {
                &&& gone
                &&& !told.contains_key(path)
                &&& !after.contains_key(path)
            }
            &&& !dirty.contains_key(path) ==> {
                &&& !gone
                &&& !told.contains_key(path)
                &&& after.contains_key(path) <==> before.contains_key(path)
                &&& after.contains_key(path) ==> after[path] == before[path]
            }
        }),
{
    assert(text_map::find(r.updated_files@, path) is Some == r.updated_files@.contains_key(path));
    assert(text_map::find(after, path) is Some == after.contains_key(path));
    assert(text_map::find(before, path) is Some == before.contains_key(path));
    assert(text_map::find(probes, path) is Some == probes.contains_key(path));
    assert(dirty.contains_key(path) || !dirty.contains_key(path));
}

/// The same batch again tells the same of every file that the sandbox still has, and nothing of
/// one that is deleted.
pub proof fn law_same_batch_again(
    dirty: Map<Seq<char>, u8>,
    probes: Map<Seq<char>, HostProbe>,
    mounted: bool,
    start: Map<Seq<char>, FileStatus>,
    middle: Map<Seq<char>, FileStatus>,
    end: Map<Seq<char>, FileStatus>,
    first: DiffResult,
    second: DiffResult,
    path: Seq<char>,
)
    requires
        classified(dirty, probes, mounted, start, middle, first),
        classified(dirty, probes, mounted, middle, end, second),
    ensures
        dirty.contains_key(path) && dirty[path] != DELETE_KIND
            ==> second.updated_files@.contains_key(path) && second.updated_files@[path]
            == first.updated_files@[path],
        dirty.contains_key(path) && dirty[path] == DELETE_KIND
            ==> !second.updated_files@.contains_key(path),
        text_map::find(end, path) == text_map::find(middle, path),
{
    law_every_change_is_told(dirty, probes, mounted, start, middle, first, path);
    law_every_change_is_told(dirty, probes, mounted, middle, end, second, path);
}

/// The last events of each path after one more event: the first of a path counts, unless a
/// deletion follows.
pub open spec fn absorb(raw: Map<Seq<char>, u8>, path: Seq<char>, kind: u8) -> Map<Seq<char>, u8> {
    if kind == DELETE_KIND || !raw.contains_key(path) {
        raw.insert(path, kind)
    } else {
        raw
    }
}

/// The last events of each path after all of the events.
pub open spec fn absorb_all(events: Seq<(Seq<char>, u8)>) -> Map<Seq<char>, u8>
    decreases events.len(),
{
    if events.len() == 0 {
        Map::empty()
    } else {
        absorb(absorb_all(events.drop_last()), events.last().0, events.last().1)
    }
}

/// Every path with an event is kept, and it is kept as deleted exactly where one of its events
/// was a deletion.
pub proof fn law_deletion_wins(events: Seq<(Seq<char>, u8)>, path: Seq<char>)
    ensures
        absorb_all(events).contains_key(path) <==> exists|i: int|
            0 <= i < events.len() && (#[trigger] events[i]).0 == path,
        absorb_all(events).contains_key(path) ==> (absorb_all(events)[path] == DELETE_KIND
            <==> exists|i: int|
            0 <= i < events.len() && #[trigger] events[i] == (path, DELETE_KIND)),
    decreases events.len(),
{
    if events.len() > 0 {
        let rest = events.drop_last();
        law_deletion_wins(rest, path);
        let last = events.len() - 1;
        assert(events[last] == events.last());
        if exists|i: int| 0 <= i < rest.len() && (#[trigger] rest[i]).0 == path {
            let i = choose|i: int| 0 <= i < rest.len() && (#[trigger] rest[i]).0 == path;
            assert(events[i].0 == path);
        }
        if exists|i: int| 0 <= i < events.len() && (#[trigger] events[i]).0 == path {
            let i = choose|i: int| 0 <= i < events.len() && (#[trigger] events[i]).0 == path;
            if i < last {
                assert(rest[i] == events[i]);
            }
        }
        if exists|i: int| 0 <= i < rest.len() && #[trigger] rest[i] == (path, DELETE_KIND) {
            let i = choose|i: int|
                0 <= i < rest.len() && #[trigger] rest[i] == (path, DELETE_KIND);
            assert(events[i] == (path, DELETE_KIND));
        }
        if exists|i: int| 0 <= i < events.len() && #[trigger] events[i] == (path, DELETE_KIND) {
            let i = choose|i: int|
                0 <= i < events.len() && #[trigger] events[i] == (path, DELETE_KIND);
            if i < last {
                assert(rest[i] == (path, DELETE_KIND));
            }
        }
    }
}

/// The last event of each path since the files last settled. A deletion is kept over what comes
/// after it.
#[derive(Debug)]
pub struct EventBatch {
    pub raw: TextMap<u8>,
}

impl EventBatch {
    pub fn new() -> (b: Self)
        ensures
            b.raw.entries() == Seq::<(Seq<char>, u8)>::empty(),
    {
        EventBatch { raw: TextMap::new() }
    }

    /// Takes in an event: the first of a path counts, unless a deletion follows.
    pub fn push(&mut self, path: &str, kind: u8)
        ensures
            final(self).raw@ == absorb(old(self).raw@, path@, kind),
    {
        if kind == delete_kind() {
            self.raw.insert(path, kind);
        } else {
            match self.raw.get(path) {
                Some(_) => {},
                None => {
                    self.raw.insert(path, kind);
                },
            }
        }
    }
}

/// The path below the workspace, where it lies there.
pub open spec fn relative(path: Seq<char>, prefix: Seq<char>) -> Option<Seq<char>> {
    if text::has_prefix(path, prefix) {
        Some(path.skip(prefix.len() as int))
    } else {
        None
    }
}

/// The events of the batch that matter: below the workspace and not ignored, by their path there.
pub fn relevant_events(
    batch: &EventBatch,
    workspace_path: &str,
    matcher: &IgnoreMatcher,
) -> (dirty: TextMap<u8>)
    requires
        forall|path: Seq<char>|
            #![trigger relative(path, workspace_path@ + "/"@)]
            batch.raw@.contains_key(path) ==> match relative(path, workspace_path@ + "/"@) {
                Some(rel) => can_be_matched(matcher.root(), rel),
                None => true,
            },
    ensures
        forall|rel: Seq<char>|
            #![trigger text_map::find(dirty@, rel)]
            text_map::find(dirty@, rel) == (if matcher.skips(rel) {
                None
            } else {
                text_map::find(batch.raw@, workspace_path@ + "/"@ + rel)
            }),
{
    let mut prefix = workspace_path.to_owned();
    prefix.append("/");
    let prefix_chars = text::to_chars(prefix.as_str());
    let mut dirty: TextMap<u8> = TextMap::new();
    let ghost entries = batch.raw.entries();
    let mut i: usize = 0;
    proof {
        assert forall|path: Seq<char>| text_map::place(entries, path) >= 0 by {
            text_map::lemma_place(entries, path);
        }
        assert forall|rel: Seq<char>|
            #![trigger text_map::find(dirty@, rel)]
            text_map::find(dirty@, rel) is None by {
            text_map::lemma_place(dirty.entries(), rel);
        }
    }
    while i < batch.raw.len()
        invariant
            i <= entries.len(),
            entries == batch.raw.entries(),
            prefix@ == workspace_path@ + "/"@,
            prefix_chars@ == prefix@,
            forall|path: Seq<char>|
                #![trigger relative(path, prefix@)]
                batch.raw@.contains_key(path) ==> match relative(path, prefix@) {
                    Some(rel) => can_be_matched(matcher.root(), rel),
                    None => true,
                },
            forall|rel: Seq<char>|
                #![trigger text_map::find(dirty@, rel)]
                text_map::find(dirty@, rel) == (if text_map::place(entries, prefix@ + rel) < i
                    && !matcher.skips(rel) {
                    Some(batch.raw@[prefix@ + rel])
                } else {
                    None
                }),
        decreases entries.len() - i,
    {
        let path = batch.raw.key(i);
        let kind: u8 = batch.raw.value(i);
        proof {
            use_type_invariant(&batch.raw);
            text_map::lemma_place_is(entries, path@, i as int);
            assert(batch.raw@.contains_key(path@));
            assert(batch.raw@[path@] == kind);
            assert forall|other: Seq<char>| text_map::place(entries, other) == i implies other
                == path@ by {
                text_map::lemma_place(entries, other);
            }
        }
        if text::starts_with(path, prefix.as_str()) {
            let chars = text::to_chars(path);
            let rel = text::from_chars(&chars, prefix_chars.len(), chars.len());
            proof {
                assert(rel@ =~= path@.skip(prefix@.len() as int));
                assert(relative(path@, prefix@) == Some(rel@));
                assert(path@ =~= prefix@ + rel@);
                assert forall|other: Seq<char>| prefix@ + other == path@ implies other
                    == rel@ by {
                    assert((prefix@ + other).skip(prefix@.len() as int) =~= other);
                }
            }
            proof {
                text_map::lemma_find(dirty@, rel@, kind);
            }
            if !matcher.ignores(rel.as_str()) {
                dirty.insert(rel.as_str(), kind);
            }
        } else {
            assert forall|other: Seq<char>| prefix@ + other != path@ by {
                assert((prefix@ + other).take(prefix@.len() as int) =~= prefix@);
            }
        }
        i += 1;
    }
    assert forall|path: Seq<char>| batch.raw@.contains_key(path) == (text_map::place(entries, path)
        < i) by {
        text_map::lemma_place(entries, path);
    }
    assert forall|rel: Seq<char>| #[trigger] (workspace_path@ + "/"@ + rel) == prefix@ + rel by {}
    dirty
}

/// A file is ignored exactly where a built-in rule ignores it or, where there are ignore files, one
/// of theirs does: neither takes back what the other ignores.
pub proof fn law_what_is_ignored(matcher: IgnoreMatcher, path: Seq<char>)
    ensures
        matcher.skips(path) <==> rules_ignore(matcher.root(), matcher.builtin_rules(), path) || (
        matcher.file_rules() is Some && rules_ignore(
            matcher.root(),
            matcher.file_rules()->0,
            path,
        )),
{
}

/// The rules of a workspace are those of the lines of its own ignore file and then those of the
/// user's, line by line.
pub proof fn law_rules_line_by_line(a: Seq<Seq<char>>, b: Seq<Seq<char>>, line: Seq<char>)
    ensures
        rules_of(a + b) == rules_of(a) + rules_of(b),
        rules_of(seq![line]) == line_rules(line),
        rules_of(Seq::empty()).len() == 0,
        rules_of(workspace_lines(a, b)) == rules_of(file_lines(a)) + rules_of(file_lines(b)),
{
    lemma_rules_of_concat(a, b);
    lemma_rules_of_concat(file_lines(a), file_lines(b));
    let one = seq![line];
    assert(one.drop_last() =~= Seq::<Seq<char>>::empty());
    assert(rules_of(one.drop_last()) + line_rules(line) =~= line_rules(line));
}

/// Byte order marks are taken from the start of a file's first line alone, and nothing else is.
pub proof fn law_marks_are_taken_off(lines: Seq<Seq<char>>, i: int)
    requires
        0 <= i < lines.len(),
    ensures
        file_lines(lines).len() == lines.len(),
        i > 0 ==> file_lines(lines)[i] == lines[i],
        ({
            let first = file_lines(lines)[0];
            let k = lines[0].len() - first.len();
            &&& 0 <= k
            &&& first == lines[0].skip(k)
            &&& forall|j: int| 0 <= j < k ==> #[trigger] lines[0][j] == '\u{feff}'
            &&& first.len() > 0 ==> first[0] != '\u{feff}'
        }),
{
    lemma_without_marks(lines[0]);
}

proof fn lemma_without_marks(s: Seq<char>)
    ensures
        ({
            let t = without_marks(s);
            let k = s.len() - t.len();
            &&& 0 <= k
            &&& t == s.skip(k)
            &&& forall|j: int| 0 <= j < k ==> #[trigger] s[j] == '\u{feff}'
            &&& t.len() > 0 ==> t[0] != '\u{feff}'
        }),
    decreases s.len(),
{
    if s.len() > 0 && s[0] == '\u{feff}' {
        let rest = s.drop_first();
        lemma_without_marks(rest);
        let t = without_marks(s);
        let k = s.len() - t.len();
        assert forall|j: int| 0 <= j < k implies #[trigger] s[j] == '\u{feff}' by {
            if j > 0 {
                assert(s[j] == rest[j - 1]);
            }
        }
        assert(t =~= s.skip(k));
    } else {
        assert(s.skip(0) =~= s);
    }
}

/// Of the events of a path that are no deletions the first counts, until one is; other paths are
/// left alone.
pub proof fn law_first_event_counts(
    raw: Map<Seq<char>, u8>,
    path: Seq<char>,
    kind: u8,
    other: Seq<char>,
)
    ensures
        absorb(raw, path, kind).contains_key(path),
        kind == DELETE_KIND ==> absorb(raw, path, kind)[path] == DELETE_KIND,
        kind != DELETE_KIND && raw.contains_key(path) ==> absorb(raw, path, kind) == raw,
        !raw.contains_key(path) ==> absorb(raw, path, kind)[path] == kind,
        other != path ==> text_map::find(absorb(raw, path, kind), other) == text_map::find(
            raw,
            other,
        ),
{
}

/// A path lies below a prefix exactly where it is the prefix and something behind it, and that is
/// its name there.
pub proof fn law_path_below(path: Seq<char>, prefix: Seq<char>, rest: Seq<char>)
    ensures
        relative(prefix + rest, prefix) == Some(rest),
        relative(path, prefix) matches Some(r) ==> path == prefix + r,
{
    assert((prefix + rest).take(prefix.len() as int) =~= prefix);
    assert((prefix + rest).skip(prefix.len() as int) =~= rest);
    if text::has_prefix(path, prefix) {
        assert(path =~= path.take(prefix.len() as int) + path.skip(prefix.len() as int));
    }
}

} // verus!
