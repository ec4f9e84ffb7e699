//! The directory tree model and the parser that filters it.

use vstd::prelude::*;
use vstd::string::StringExecFns;
use crate::paths::{file_name, file_name_spec};
use crate::text::{contains, is_substring};
use crate::trusted::{debug_quoted, debug_text_of};

verus! {

/// A directory or a file of the repository.
#[derive(Debug)]
pub struct DirectoryEntry {
    /// Name of the directory or file.
    pub name: String,
    /// Full path of the directory or file; the key that identifies it.
    pub path: String,
    /// Whether this entry is a directory.
    pub is_directory: bool,
    /// Size on disk in bytes, where it could be determined.
    pub size_bytes: Option<u64>,
    /// Child entries (empty for files).
    pub children: Vec<DirectoryEntry>,
}

/// The mathematical model of an entry and everything below it.
pub struct EntryView {
    pub name: Seq<char>,
    pub path: Seq<char>,
    pub is_directory: bool,
    pub size_bytes: Option<u64>,
    pub children: Seq<EntryView>,
}

impl View for DirectoryEntry {
    type V = EntryView;

    open spec fn view(&self) -> EntryView
        decreases self,
    {
        EntryView {
            name: self.name@,
            path: self.path@,
            is_directory: self.is_directory,
            size_bytes: self.size_bytes,
            children: views_of(self.children@, self.children@.len()),
        }
    }
}

/// The models of the first `upto` entries.
pub open spec fn views_of(entries: Seq<DirectoryEntry>, upto: nat) -> Seq<EntryView>
    decreases entries, upto,
{
    if upto == 0 || upto > entries.len() {
        Seq::empty()
    } else {
        views_of(entries, (upto - 1) as nat).push(entries[upto - 1]@)
    }
}

/// `views_of` lists the model of each entry, in order.
pub proof fn lemma_views_of(entries: Seq<DirectoryEntry>, upto: nat)
    requires
        upto <= entries.len(),
    ensures
        views_of(entries, upto).len() == upto,
        forall|i: int| 0 <= i < upto ==> (#[trigger] views_of(entries, upto)[i]) == entries[i]@,
    decreases upto,
{
    if upto > 0 {
        lemma_views_of(entries, (upto - 1) as nat);
        assert(views_of(entries, upto) == views_of(entries, (upto - 1) as nat).push(entries[upto - 1]@));
    } else {
        assert(views_of(entries, upto) == Seq::<EntryView>::empty());
    }
}

/// The model of an entry lists the models of its children, in order.
pub proof fn law_view_lists_children(e: DirectoryEntry)
    ensures
        e@.children.len() == e.children@.len(),
        forall|i: int| 0 <= i < e.children@.len() ==> (#[trigger] e@.children[i]) == e.children@[i]@,
{
    lemma_views_of(e.children@, e.children@.len());
}

/// Entry lists that agree on a prefix have the same models on it.
pub proof fn lemma_views_of_prefix(a: Seq<DirectoryEntry>, b: Seq<DirectoryEntry>, upto: nat)
    requires
        upto <= a.len(),
        upto <= b.len(),
        forall|i: int| 0 <= i < upto ==> (#[trigger] a[i])@ == b[i]@,
    ensures
        views_of(a, upto) == views_of(b, upto),
    decreases upto,
{
    if upto > 0 {
        lemma_views_of_prefix(a, b, (upto - 1) as nat);
    }
}

impl DirectoryEntry {
    /// An upper bound on every weight a layout gives this entry.
    pub open spec fn weight_cap(self) -> int {
        let proxy: int = (self.children@.len() as int + 1) * 1000;
        match self.size_bytes {
            Some(s) => if s > proxy { s as int } else { proxy },
            None => proxy,
        }
    }

    /// The weight caps of the direct children add up to less than 2^64 - 1,
    /// so that every sum of child weights a layout forms fits in 64 bits.
    pub open spec fn weights_fit(self) -> bool {
        cap_sum(self.children@, self.children@.len()) < u64::MAX
    }

    /// Tells whether the children's weights fit; each layout asks for this.
    pub fn has_fitting_weights(&self) -> (ok: bool)
        ensures
            ok == self.weights_fit(),
    {
        let n: usize = self.children.len();
        let mut total: u128 = 0;
        let mut i: usize = 0;
        while i < n
            invariant
                n == self.children@.len(),
                i <= n,
                total == cap_sum(self.children@, i as nat),
                total < u64::MAX,
            decreases n - i,
        {
            let child = &self.children[i];
            let proxy: u128 = (child.children.len() as u128 + 1) * 1000;
            let cap: u128 = match child.size_bytes {
                Some(s) => if s as u128 > proxy { s as u128 } else { proxy },
                None => proxy,
            };
            proof {
                lemma_cap_sum_monotone(self.children@, (i + 1) as nat, n as nat);
            }
            total = total + cap;
            if total >= u64::MAX as u128 {
                return false;
            }
            i = i + 1;
        }
        true
    }
}

impl Clone for DirectoryEntry {
    /// A deep copy of the entry and everything below it.
    fn clone(&self) -> (copy: Self)
        ensures
            copy@ == self@,
        decreases self,
    {
        let mut children: Vec<DirectoryEntry> = Vec::new();
        let mut i: usize = 0;
        while i < self.children.len()
            invariant
                i <= self.children.len(),
                children@.len() == i,
                forall|k: int| 0 <= k < i ==> (#[trigger] children@[k])@ == self.children@[k]@,
            decreases self.children.len() - i,
        {
            let c = self.children[i].clone();
            children.push(c);
            i = i + 1;
        }
        proof {
            lemma_views_of_prefix(children@, self.children@, children@.len());
        }
        DirectoryEntry {
            name: self.name.clone(),
            path: self.path.clone(),
            is_directory: self.is_directory,
            size_bytes: self.size_bytes,
            children,
        }
    }
}

/// Sum of the weight caps of the first `upto` entries.
pub open spec fn cap_sum(entries: Seq<DirectoryEntry>, upto: nat) -> int
    decreases upto,
{
    if upto == 0 || upto > entries.len() {
        0
    } else {
        cap_sum(entries, (upto - 1) as nat) + entries[upto - 1].weight_cap()
    }
}

/// The sum of caps grows with the number of entries taken.
pub proof fn lemma_cap_sum_monotone(entries: Seq<DirectoryEntry>, a: nat, b: nat)
    requires
        a <= b <= entries.len(),
    ensures
        0 <= cap_sum(entries, a) <= cap_sum(entries, b),
    decreases b,
{
    if a < b {
        lemma_cap_sum_monotone(entries, a, (b - 1) as nat);
    } else if b > 0 {
        lemma_cap_sum_monotone(entries, (a - 1) as nat, (b - 1) as nat);
    }
}

/// The text of each string, in order.
pub open spec fn texts(strings: Seq<String>) -> Seq<Seq<char>> {
    Seq::new(strings.len(), |i: int| strings[i]@)
}

/// Whether one of the patterns occurs in the name.
pub open spec fn name_is_ignored(name: Seq<char>, patterns: Seq<String>) -> bool {
    exists|i: int| 0 <= i < patterns.len() && is_substring((#[trigger] patterns[i])@, name)
}

/// Whether the path is left out: its file name holds one of the patterns.
/// A path without a file name is never left out.
pub open spec fn path_is_ignored(path: Seq<char>, patterns: Seq<String>) -> bool {
    match file_name_spec(path) {
        Some(name) => name_is_ignored(name, patterns),
        None => false,
    }
}

/// The paths of the files in and below the entry that are not left out, in
/// the order of the tree.
pub open spec fn files_under(e: DirectoryEntry, patterns: Seq<String>) -> Seq<Seq<char>>
    decreases e,
{
    if !e.is_directory {
        if path_is_ignored(e.path@, patterns) {
            Seq::empty()
        } else {
            seq![e.path@]
        }
    } else {
        files_among(e.children@, patterns, e.children@.len())
    }
}

/// The paths of the files in and below the first `upto` entries.
pub open spec fn files_among(
    entries: Seq<DirectoryEntry>,
    patterns: Seq<String>,
    upto: nat,
) -> Seq<Seq<char>>
    decreases entries, upto,
{
    if upto == 0 || upto > entries.len() {
        Seq::empty()
    } else {
        files_among(entries, patterns, (upto - 1) as nat) + files_under(entries[upto - 1], patterns)
    }
}

/// The name of the entry with the given path: the file name of the path,
/// or `fallback` where it has none.
pub open spec fn name_from_path(path: Seq<char>, fallback: Seq<char>) -> Seq<char> {
    match file_name_spec(path) {
        Some(name) => name,
        None => fallback,
    }
}

/// The name of an entry whose path has no file name.
pub open spec fn unknown_name() -> Seq<char> {
    "unknown"@
}

/// The name of a root whose path has no file name.
pub open spec fn root_name() -> Seq<char> {
    "root"@
}

/// The entry without everything below it that is left out. Every entry is
/// named after its path. An entry that is no directory has no children.
pub open spec fn pruned(e: DirectoryEntry, patterns: Seq<String>) -> EntryView
    decreases e,
{
    EntryView {
        name: name_from_path(e.path@, unknown_name()),
        path: e.path@,
        is_directory: e.is_directory,
        size_bytes: e.size_bytes,
        children: if e.is_directory {
            pruned_among(e.children@, patterns, e.children@.len())
        } else {
            Seq::empty()
        },
    }
}

/// The first `upto` entries without those that are left out, each pruned.
pub open spec fn pruned_among(
    entries: Seq<DirectoryEntry>,
    patterns: Seq<String>,
    upto: nat,
) -> Seq<EntryView>
    decreases entries, upto,
{
    if upto == 0 || upto > entries.len() {
        Seq::empty()
    } else if path_is_ignored(entries[upto - 1].path@, patterns) {
        pruned_among(entries, patterns, (upto - 1) as nat)
    } else {
        pruned_among(entries, patterns, (upto - 1) as nat).push(pruned(entries[upto - 1], patterns))
    }
}

/// The tree that parsing makes of a root that is a directory: the pruned
/// root, named after its path, or `root` where the path has no file name.
pub open spec fn parsed(root: DirectoryEntry, patterns: Seq<String>) -> EntryView {
    EntryView { name: name_from_path(root.path@, root_name()), ..pruned(root, patterns) }
}

/// Text that begins the message for a root that is no directory.
pub open spec fn not_a_directory_prefix() -> Seq<char> {
    "Path is not a directory: "@
}

/// Filters directory trees by a list of patterns to leave out.
pub struct DirectoryParser {
    /// An entry is left out where its file name holds one of these.
    pub ignore_patterns: Vec<String>,
}

impl DirectoryParser {
    /// A parser that leaves out `.git`, `node_modules`, `target` and
    /// `.DS_Store`.
    pub fn new() -> (parser: DirectoryParser)
        ensures
            texts(parser.ignore_patterns@) == seq![
                ".git"@,
                "node_modules"@,
                "target"@,
                ".DS_Store"@,
            ],
    {
        let mut ignore_patterns: Vec<String> = Vec::new();
        ignore_patterns.push(String::from_str(".git"));
        ignore_patterns.push(String::from_str("node_modules"));
        ignore_patterns.push(String::from_str("target"));
        ignore_patterns.push(String::from_str(".DS_Store"));
        assert(texts(ignore_patterns@) =~= seq![
            ".git"@,
            "node_modules"@,
            "target"@,
            ".DS_Store"@,
        ]);
        DirectoryParser { ignore_patterns }
    }

    /// A parser that leaves out what holds one of the given patterns.
    pub fn with_ignore_patterns(ignore_patterns: Vec<String>) -> (parser: DirectoryParser)
        ensures
            parser.ignore_patterns == ignore_patterns,
    {
        DirectoryParser { ignore_patterns }
    }

    /// Adds a pattern to leave out.
    pub fn add_ignore_pattern(&mut self, pattern: String)
        ensures
            final(self).ignore_patterns@ == old(self).ignore_patterns@.push(pattern),
    {
        self.ignore_patterns.push(pattern);
    }

    /// Tells whether one of the patterns occurs in the file name.
    pub fn name_matches(&self, file_name: &str) -> (ignored: bool)
        ensures
            ignored == name_is_ignored(file_name@, self.ignore_patterns@),
    {
        let n: usize = self.ignore_patterns.len();
        let mut i: usize = 0;
        while i < n
            invariant
                n == self.ignore_patterns@.len(),
                i <= n,
                forall|k: int|
                    0 <= k < i ==> !is_substring(
                        (#[trigger] self.ignore_patterns@[k])@,
                        file_name@,
                    ),
            decreases n - i,
        {
            if contains(file_name, self.ignore_patterns[i].as_str()) {
                return true;
            }
            i = i + 1;
        }
        false
    }

    /// Tells whether the path is left out: whether its file name holds one
    /// of the patterns.
    pub fn should_ignore(&self, path: &str) -> (ignored: bool)
        ensures
            ignored == path_is_ignored(path@, self.ignore_patterns@),
    {
        match file_name(path) {
            Some(name) => self.name_matches(name.as_str()),
            None => false,
        }
    }

    /// The paths of all files in and below the entry that are not left out.
    pub fn get_all_files(&self, entry: &DirectoryEntry) -> (files: Vec<String>)
        ensures
            texts(files@) == files_under(*entry, self.ignore_patterns@),
    {
        let mut files: Vec<String> = Vec::new();
        self.collect_files_recursive(entry, &mut files);
        assert(texts(files@) =~= Seq::<Seq<char>>::empty() + files_under(
            *entry,
            self.ignore_patterns@,
        ));
        files
    }

    /// Appends the paths of all files in and below the entry that are not
    /// left out.
    pub fn collect_files_recursive(&self, entry: &DirectoryEntry, files: &mut Vec<String>)
        ensures
            texts(final(files)@) == texts(old(files)@) + files_under(
                *entry,
                self.ignore_patterns@,
            ),
        decreases entry,
    {
        if !entry.is_directory {
            if !self.should_ignore(entry.path.as_str()) {
                files.push(entry.path.clone());
                assert(texts(files@) =~= texts(old(files)@) + seq![entry.path@]);
            } else {
                assert(texts(files@) =~= texts(old(files)@) + Seq::<Seq<char>>::empty());
            }
        } else {
            let n: usize = entry.children.len();
            let mut i: usize = 0;
            assert(texts(files@) =~= texts(old(files)@) + files_among(
                entry.children@,
                self.ignore_patterns@,
                0,
            ));
            while i < n
                invariant
                    n == entry.children@.len(),
                    i <= n,
                    texts(files@) == texts(old(files)@) + files_among(
                        entry.children@,
                        self.ignore_patterns@,
                        i as nat,
                    ),
                decreases n - i,
            {
                let ghost before = texts(files@);
                self.collect_files_recursive(&entry.children[i], files);
                assert(texts(files@) =~= texts(old(files)@) + files_among(
                    entry.children@,
                    self.ignore_patterns@,
                    (i + 1) as nat,
                ));
                i = i + 1;
            }
        }
    }

    /// The entry without everything below it that is left out.
    pub fn prune(&self, entry: &DirectoryEntry) -> (tree: DirectoryEntry)
        ensures
            tree@ == pruned(*entry, self.ignore_patterns@),
        decreases entry,
    {
        let mut children: Vec<DirectoryEntry> = Vec::new();
        if entry.is_directory {
            let n: usize = entry.children.len();
            let mut i: usize = 0;
            while i < n
                invariant
                    n == entry.children@.len(),
                    i <= n,
                    views_of(children@, children@.len()) == pruned_among(
                        entry.children@,
                        self.ignore_patterns@,
                        i as nat,
                    ),
                decreases n - i,
            {
                let child = &entry.children[i];
                if !self.should_ignore(child.path.as_str()) {
                    let kept = self.prune(child);
                    let ghost before = children@;
                    children.push(kept);
                    proof {
                        lemma_views_of_prefix(children@, before, before.len());
                        assert(views_of(children@, children@.len()) == views_of(
                            children@,
                            before.len(),
                        ).push(kept@));
                    }
                }
                i = i + 1;
            }
        }
        DirectoryEntry {
            name: entry_name(entry.path.as_str(), "unknown"),
            path: entry.path.clone(),
            is_directory: entry.is_directory,
            size_bytes: entry.size_bytes,
            children,
        }
    }

    /// Turns the tree as it was read from disk into the tree to show: the
    /// root with everything below it that is not left out, every entry
    /// named after its path and the root `root` where its path has no file
    /// name. A root that is no directory is refused.
    pub fn parse_directory(&self, root: &DirectoryEntry) -> (result: Result<DirectoryEntry, String>)
        ensures
            match result {
                Ok(tree) => root.is_directory && tree@ == parsed(*root, self.ignore_patterns@),
                Err(message) => !root.is_directory && message@ == not_a_directory_prefix()
                    + debug_text_of(root.path@),
            },
    {
        if !root.is_directory {
            let mut message = String::from_str("Path is not a directory: ");
            let quoted = debug_quoted(root.path.as_str());
            message.append(quoted.as_str());
            return Err(message);
        }
        let tree = self.prune(root);
        let named = DirectoryEntry {
            name: entry_name(root.path.as_str(), "root"),
            path: tree.path,
            is_directory: tree.is_directory,
            size_bytes: tree.size_bytes,
            children: tree.children,
        };
        assert(named@.children == tree@.children);
        Ok(named)
    }
}

/// The name of the entry with the given path: the file name of the path,
/// or `fallback` where it has none.
pub fn entry_name(path: &str, fallback: &str) -> (name: String)
    ensures
        name@ == name_from_path(path@, fallback@),
{
    match file_name(path) {
        Some(name) => name,
        None => String::from_str(fallback),
    }
}

} // verus!
