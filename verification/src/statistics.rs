//! Statistics of a directory tree: how many files and directories, how many
//! bytes, how deep, and how many files of each extension.

use vstd::prelude::*;
use crate::directory::{DirectoryEntry, DirectoryParser};
use crate::paths::{extension, extension_spec};

verus! {

/// What the statistics take from one entry of the tree.
pub struct NodeFact {
    /// Whether the entry is a directory.
    pub is_directory: bool,
    /// Size of a file on disk, as far as it is known; 0 for a directory.
    pub bytes: nat,
    /// Extension of a file's path.
    pub extension: Option<Seq<char>>,
    /// Number of directories between the root and the entry.
    pub depth: nat,
}

/// What the statistics take from the entry at the given depth.
pub open spec fn fact_of(e: DirectoryEntry, depth: nat) -> NodeFact {
    NodeFact {
        is_directory: e.is_directory,
        bytes: if e.is_directory {
            0
        } else {
            match e.size_bytes {
                Some(s) => s as nat,
                None => 0,
            }
        },
        extension: if e.is_directory {
            None
        } else {
            extension_spec(e.path@)
        },
        depth,
    }
}

/// The entry and everything below it, parents before children. What is
/// below an entry that is no directory does not count.
pub open spec fn nodes_under(e: DirectoryEntry, depth: nat) -> Seq<NodeFact>
    decreases e,
{
    if e.is_directory {
        seq![fact_of(e, depth)] + nodes_among(e.children@, depth + 1, e.children@.len())
    } else {
        seq![fact_of(e, depth)]
    }
}

/// The first `upto` entries and everything below them.
pub open spec fn nodes_among(entries: Seq<DirectoryEntry>, depth: nat, upto: nat) -> Seq<NodeFact>
    decreases entries, upto,
{
    if upto == 0 || upto > entries.len() {
        Seq::empty()
    } else {
        nodes_among(entries, depth, (upto - 1) as nat) + nodes_under(entries[upto - 1], depth)
    }
}

/// Number of files among the nodes.
pub open spec fn files_in(nodes: Seq<NodeFact>) -> nat
    decreases nodes.len(),
{
    if nodes.len() == 0 {
        0
    } else {
        files_in(nodes.drop_last()) + if nodes.last().is_directory {
            0nat
        } else {
            1nat
        }
    }
}

/// Number of directories among the nodes.
pub open spec fn directories_in(nodes: Seq<NodeFact>) -> nat
    decreases nodes.len(),
{
    if nodes.len() == 0 {
        0
    } else {
        directories_in(nodes.drop_last()) + if nodes.last().is_directory {
            1nat
        } else {
            0nat
        }
    }
}

/// Total size of the files among the nodes.
pub open spec fn bytes_in(nodes: Seq<NodeFact>) -> nat
    decreases nodes.len(),
{
    if nodes.len() == 0 {
        0
    } else {
        bytes_in(nodes.drop_last()) + nodes.last().bytes
    }
}

/// Greatest depth among the nodes.
pub open spec fn deepest(nodes: Seq<NodeFact>) -> nat
    decreases nodes.len(),
{
    if nodes.len() == 0 {
        0
    } else if nodes.last().depth > deepest(nodes.drop_last()) {
        nodes.last().depth
    } else {
        deepest(nodes.drop_last())
    }
}

/// Number of files among the nodes whose path has the given extension.
pub open spec fn with_extension(nodes: Seq<NodeFact>, extension: Seq<char>) -> nat
    decreases nodes.len(),
{
    if nodes.len() == 0 {
        0
    } else {
        with_extension(nodes.drop_last(), extension) + if !nodes.last().is_directory
            && nodes.last().extension == Some(extension) {
            1nat
        } else {
            0nat
        }
    }
}

/// The greater of two numbers.
pub open spec fn max_nat(a: nat, b: nat) -> nat {
    if a >= b {
        a
    } else {
        b
    }
}

/// Each summary of two lists put together is the two summaries put
/// together.
pub proof fn lemma_summaries_add(a: Seq<NodeFact>, b: Seq<NodeFact>)
    ensures
        files_in(a + b) == files_in(a) + files_in(b),
        directories_in(a + b) == directories_in(a) + directories_in(b),
        bytes_in(a + b) == bytes_in(a) + bytes_in(b),
        deepest(a + b) == max_nat(deepest(a), deepest(b)),
        files_in(a) + directories_in(a) == a.len(),
        forall|extension: Seq<char>| #[trigger]
            with_extension(a + b, extension) == with_extension(a, extension) + with_extension(
                b,
                extension,
            ),
        forall|extension: Seq<char>| #[trigger] with_extension(a, extension) <= files_in(a),
    decreases a.len() + b.len(),
{
    if b.len() == 0 {
        assert(a + b =~= a);
        if a.len() > 0 {
            lemma_summaries_add(a.drop_last(), b);
            assert forall|extension: Seq<char>| #[trigger]
                with_extension(a, extension) <= files_in(a) by {
                assert(with_extension(a.drop_last(), extension) <= files_in(a.drop_last()));
            }
        }
        assert forall|extension: Seq<char>| #[trigger]
            with_extension(a + b, extension) == with_extension(a, extension) + with_extension(
                b,
                extension,
            ) by {
            assert(with_extension(b, extension) == 0);
        }
    } else {
        assert((a + b).drop_last() =~= a + b.drop_last());
        assert((a + b).last() == b.last());
        lemma_summaries_add(a, b.drop_last());
        assert forall|extension: Seq<char>| #[trigger]
            with_extension(a + b, extension) == with_extension(a, extension) + with_extension(
                b,
                extension,
            ) by {
            assert(with_extension(a + b.drop_last(), extension) == with_extension(a, extension)
                + with_extension(b.drop_last(), extension));
        }
    }
}

/// The summaries of a single node.
pub proof fn lemma_summaries_one(fact: NodeFact)
    ensures
        files_in(seq![fact]) == if fact.is_directory {
            0nat
        } else {
            1nat
        },
        directories_in(seq![fact]) == if fact.is_directory {
            1nat
        } else {
            0nat
        },
        bytes_in(seq![fact]) == fact.bytes,
        deepest(seq![fact]) == fact.depth,
        forall|extension: Seq<char>| #[trigger]
            with_extension(seq![fact], extension) == if !fact.is_directory && fact.extension
                == Some(extension) {
                1nat
            } else {
                0nat
            },
{
    let one = seq![fact];
    assert(one.drop_last() =~= Seq::<NodeFact>::empty());
    assert(one.last() == fact);
    assert(files_in(one.drop_last()) == 0);
    assert(directories_in(one.drop_last()) == 0);
    assert(bytes_in(one.drop_last()) == 0);
    assert(deepest(one.drop_last()) == 0);
    assert forall|extension: Seq<char>| #[trigger]
        with_extension(one, extension) == if !fact.is_directory && fact.extension == Some(
            extension,
        ) {
            1nat
        } else {
            0nat
        } by {
        assert(with_extension(one.drop_last(), extension) == 0);
    }
}

/// How many files have a given extension.
#[derive(Debug)]
pub struct ExtensionCount {
    /// The extension, without the dot.
    pub extension: String,
    /// Number of files whose path has it.
    pub count: usize,
}

/// Statistics of a directory tree.
#[derive(Debug)]
pub struct DirectoryStatistics {
    /// Total number of files.
    pub total_files: usize,
    /// Total number of directories.
    pub total_directories: usize,
    /// Total size of the files in bytes, as far as their sizes are known.
    pub total_size_bytes: u64,
    /// Greatest number of directories between the root and an entry.
    pub max_depth: usize,
    /// Number of files of each extension; no extension is listed twice.
    pub file_types: Vec<ExtensionCount>,
}

/// Number of files that the list gives for the extension.
pub open spec fn listed(list: Seq<ExtensionCount>, extension: Seq<char>) -> nat
    decreases list.len(),
{
    if list.len() == 0 {
        0
    } else {
        listed(list.drop_last(), extension) + if list.last().extension@ == extension {
            list.last().count as nat
        } else {
            0nat
        }
    }
}

/// No extension is listed twice.
pub open spec fn distinct_extensions(list: Seq<ExtensionCount>) -> bool {
    forall|i: int, j: int|
        0 <= i < j < list.len() ==> (#[trigger] list[i]).extension@ != (#[trigger] list[j]).extension@
}

/// An extension that is not listed counts no files.
pub proof fn lemma_listed_absent(list: Seq<ExtensionCount>, extension: Seq<char>)
    requires
        forall|i: int| 0 <= i < list.len() ==> (#[trigger] list[i]).extension@ != extension,
    ensures
        listed(list, extension) == 0,
    decreases list.len(),
{
    if list.len() > 0 {
        assert(list.last() == list[list.len() - 1]);
        assert forall|i: int| 0 <= i < list.drop_last().len() implies (#[trigger] list.drop_last()[i]).extension@
            != extension by {
            assert(list.drop_last()[i] == list[i]);
        }
        lemma_listed_absent(list.drop_last(), extension);
    }
}

/// Replacing one item of the list changes what is listed by the difference
/// between the two items.
pub proof fn lemma_listed_update(
    list: Seq<ExtensionCount>,
    i: int,
    item: ExtensionCount,
    extension: Seq<char>,
)
    requires
        0 <= i < list.len(),
    ensures
        listed(list.update(i, item), extension) + (if list[i].extension@ == extension {
            list[i].count as nat
        } else {
            0nat
        }) == listed(list, extension) + (if item.extension@ == extension {
            item.count as nat
        } else {
            0nat
        }),
        list[i].extension@ == extension ==> list[i].count <= listed(list, extension),
    decreases list.len(),
{
    let updated = list.update(i, item);
    if i == list.len() - 1 {
        assert(updated.drop_last() =~= list.drop_last());
        assert(updated.last() == item);
        assert(list.last() == list[i]);
    } else {
        assert(updated.drop_last() =~= list.drop_last().update(i, item));
        assert(updated.last() == list.last());
        assert(list.drop_last()[i] == list[i]);
        lemma_listed_update(list.drop_last(), i, item, extension);
    }
}

/// Counts one more file of the extension.
pub fn count_extension(list: &mut Vec<ExtensionCount>, extension: String)
    requires
        distinct_extensions(old(list)@),
        listed(old(list)@, extension@) < usize::MAX,
    ensures
        distinct_extensions(final(list)@),
        forall|e: Seq<char>| #[trigger]
            listed(final(list)@, e) == listed(old(list)@, e) + if e == extension@ {
                1nat
            } else {
                0nat
            },
{
    let n: usize = list.len();
    let mut i: usize = 0;
    while i < n
        invariant
            n == list@.len(),
            list@ == old(list)@,
            distinct_extensions(list@),
            listed(list@, extension@) < usize::MAX,
            i <= n,
            forall|k: int| 0 <= k < i ==> (#[trigger] list@[k]).extension@ != extension@,
        decreases n - i,
    {
        if list[i].extension == extension {
            let count: usize = list[i].count;
            proof {
                lemma_listed_update(list@, i as int, list@[i as int], extension@);
            }
            let item = ExtensionCount { extension, count: count + 1 };
            let ghost before = list@;
            list.set(i, item);
            proof {
                assert(list@ == before.update(i as int, item));
                assert forall|j: int, k: int| 0 <= j < k < list@.len() implies (#[trigger] list@[j]).extension@
                    != (#[trigger] list@[k]).extension@ by {
                    assert(list@[j].extension@ == before[j].extension@);
                    assert(list@[k].extension@ == before[k].extension@);
                }
                assert forall|e: Seq<char>| #[trigger]
                    listed(list@, e) == listed(before, e) + if e == extension@ {
                        1nat
                    } else {
                        0nat
                    } by {
                    lemma_listed_update(before, i as int, item, e);
                }
            }
            return ;
        }
        i = i + 1;
    }
    let item = ExtensionCount { extension, count: 1 };
    let ghost before = list@;
    list.push(item);
    proof {
        assert(list@.drop_last() =~= before);
        assert(list@.last() == item);
        lemma_listed_absent(before, extension@);
        assert forall|e: Seq<char>| #[trigger]
            listed(list@, e) == listed(before, e) + if e == extension@ {
                1nat
            } else {
                0nat
            } by {}
    }
}

impl DirectoryStatistics {
    /// The statistics say of a tree what its nodes add up to.
    pub open spec fn describes(self, nodes: Seq<NodeFact>) -> bool {
        &&& self.total_files == files_in(nodes)
        &&& self.total_directories == directories_in(nodes)
        &&& self.total_size_bytes == bytes_in(nodes)
        &&& self.max_depth == deepest(nodes)
        &&& distinct_extensions(self.file_types@)
        &&& forall|extension: Seq<char>| #[trigger]
            listed(self.file_types@, extension) == with_extension(nodes, extension)
    }
}

/// Whether the statistics of the tree can be counted: the number of its
/// entries fits in `usize` and the number of its bytes in 64 bits.
pub open spec fn countable(e: DirectoryEntry) -> bool {
    nodes_under(e, 0).len() <= usize::MAX && bytes_in(nodes_under(e, 0)) <= u64::MAX
}

/// The depth of a node is less than the number of nodes up to it: no node
/// under an entry at depth `depth` is deeper than `depth` plus the number
/// of nodes under the entry, less one.
pub proof fn lemma_depth_bounded(e: DirectoryEntry, depth: nat)
    ensures
        nodes_under(e, depth).len() >= 1,
        depth <= deepest(nodes_under(e, depth)) < depth + nodes_under(e, depth).len(),
    decreases e,
{
    lemma_summaries_one(fact_of(e, depth));
    if e.is_directory {
        lemma_depth_bounded_among(e.children@, depth + 1, e.children@.len());
        lemma_summaries_add(
            seq![fact_of(e, depth)],
            nodes_among(e.children@, depth + 1, e.children@.len()),
        );
    }
}

/// No node among entries at depth `depth` is deeper than `depth` plus the
/// number of the nodes, less one.
pub proof fn lemma_depth_bounded_among(entries: Seq<DirectoryEntry>, depth: nat, upto: nat)
    requires
        upto <= entries.len(),
    ensures
        deepest(nodes_among(entries, depth, upto)) <= depth + nodes_among(
            entries,
            depth,
            upto,
        ).len(),
        upto > 0 ==> depth <= deepest(nodes_among(entries, depth, upto)) < depth + nodes_among(
            entries,
            depth,
            upto,
        ).len(),
    decreases entries, upto,
{
    if upto > 0 {
        lemma_depth_bounded_among(entries, depth, (upto - 1) as nat);
        lemma_depth_bounded(entries[upto - 1], depth);
        lemma_summaries_add(
            nodes_among(entries, depth, (upto - 1) as nat),
            nodes_under(entries[upto - 1], depth),
        );
    }
}

impl DirectoryParser {
    /// Statistics of the tree below the entry, the entry included.
    pub fn get_statistics(&self, entry: &DirectoryEntry) -> (stats: DirectoryStatistics)
        requires
            countable(*entry),
        ensures
            stats.describes(nodes_under(*entry, 0)),
    {
        let mut stats = DirectoryStatistics {
            total_files: 0,
            total_directories: 0,
            total_size_bytes: 0,
            max_depth: 0,
            file_types: Vec::new(),
        };
        proof {
            lemma_summaries_add(nodes_under(*entry, 0), Seq::empty());
            lemma_depth_bounded(*entry, 0);
        }
        self.calculate_statistics_recursive(entry, &mut stats, 0);
        stats
    }

    /// Statistics of the tree below the entry where they can be counted;
    /// `None` where the entries or the bytes are too many.
    pub fn try_get_statistics(&self, entry: &DirectoryEntry) -> (stats: Option<DirectoryStatistics>)
        ensures
            stats is Some == countable(*entry),
            stats matches Some(s) ==> s.describes(nodes_under(*entry, 0)),
    {
        if is_countable(entry) {
            Some(self.get_statistics(entry))
        } else {
            None
        }
    }

    /// Adds the tree below the entry, which stands at the given depth, to
    /// the statistics.
    pub fn calculate_statistics_recursive(
        &self,
        entry: &DirectoryEntry,
        stats: &mut DirectoryStatistics,
        depth: usize,
    )
        requires
            distinct_extensions(old(stats).file_types@),
            old(stats).total_files + files_in(nodes_under(*entry, depth as nat)) <= usize::MAX,
            old(stats).total_directories + directories_in(nodes_under(*entry, depth as nat))
                <= usize::MAX,
            old(stats).total_size_bytes + bytes_in(nodes_under(*entry, depth as nat)) <= u64::MAX,
            deepest(nodes_under(*entry, depth as nat)) <= usize::MAX,
            forall|extension: Seq<char>| #[trigger]
                listed(old(stats).file_types@, extension) <= old(stats).total_files,
        ensures
            distinct_extensions(final(stats).file_types@),
            final(stats).total_files == old(stats).total_files + files_in(
                nodes_under(*entry, depth as nat),
            ),
            final(stats).total_directories == old(stats).total_directories + directories_in(
                nodes_under(*entry, depth as nat),
            ),
            final(stats).total_size_bytes == old(stats).total_size_bytes + bytes_in(
                nodes_under(*entry, depth as nat),
            ),
            final(stats).max_depth == max_nat(
                old(stats).max_depth as nat,
                deepest(nodes_under(*entry, depth as nat)),
            ),
            forall|extension: Seq<char>| #[trigger]
                listed(final(stats).file_types@, extension) == listed(
                    old(stats).file_types@,
                    extension,
                ) + with_extension(nodes_under(*entry, depth as nat), extension),
        decreases entry,
    {
        let ghost fact = fact_of(*entry, depth as nat);
        let ghost all = nodes_under(*entry, depth as nat);
        proof {
            lemma_summaries_one(fact);
            lemma_depth_bounded(*entry, depth as nat);
        }
        if depth > stats.max_depth {
            stats.max_depth = depth;
        }
        if entry.is_directory {
            let ghost below = nodes_among(entry.children@, (depth + 1) as nat, entry.children@.len());
            proof {
                lemma_summaries_add(seq![fact], below);
            }
            stats.total_directories = stats.total_directories + 1;
            let n: usize = entry.children.len();
            let mut i: usize = 0;
            proof {
                lemma_summaries_add(
                    nodes_among(entry.children@, (depth + 1) as nat, 0),
                    Seq::empty(),
                );
            }
            while i < n
                invariant
                    n == entry.children@.len(),
                    i <= n,
                    entry.is_directory,
                    below == nodes_among(entry.children@, (depth + 1) as nat, n as nat),
                    fact == fact_of(*entry, depth as nat),
                    all == seq![fact] + below,
                    deepest(all) <= usize::MAX,
                    deepest(all) == max_nat(depth as nat, deepest(below)),
                    distinct_extensions(stats.file_types@),
                    old(stats).total_files + files_in(below) <= usize::MAX,
                    old(stats).total_directories + 1 + directories_in(below) <= usize::MAX,
                    old(stats).total_size_bytes + bytes_in(below) <= u64::MAX,
                    forall|extension: Seq<char>| #[trigger]
                        listed(old(stats).file_types@, extension) <= old(stats).total_files,
                    stats.total_files == old(stats).total_files + files_in(
                        nodes_among(entry.children@, (depth + 1) as nat, i as nat),
                    ),
                    stats.total_directories == old(stats).total_directories + 1 + directories_in(
                        nodes_among(entry.children@, (depth + 1) as nat, i as nat),
                    ),
                    stats.total_size_bytes == old(stats).total_size_bytes + bytes_in(
                        nodes_among(entry.children@, (depth + 1) as nat, i as nat),
                    ),
                    stats.max_depth == max_nat(
                        max_nat(old(stats).max_depth as nat, depth as nat),
                        deepest(nodes_among(entry.children@, (depth + 1) as nat, i as nat)),
                    ),
                    forall|extension: Seq<char>| #[trigger]
                        listed(stats.file_types@, extension) == listed(
                            old(stats).file_types@,
                            extension,
                        ) + with_extension(
                            nodes_among(entry.children@, (depth + 1) as nat, i as nat),
                            extension,
                        ),
                decreases n - i,
            {
                let ghost done = nodes_among(entry.children@, (depth + 1) as nat, i as nat);
                let ghost next = nodes_under(entry.children@[i as int], (depth + 1) as nat);
                let ghost rest = nodes_among_from(
                    entry.children@,
                    (depth + 1) as nat,
                    (i + 1) as nat,
                    n as nat,
                );
                proof {
                    lemma_nodes_among_split(
                        entry.children@,
                        (depth + 1) as nat,
                        (i + 1) as nat,
                        n as nat,
                    );
                    lemma_summaries_add(done, next);
                    lemma_summaries_add(done + next, rest);
                    lemma_depth_bounded(entry.children@[i as int], (depth + 1) as nat);
                    assert forall|extension: Seq<char>| #[trigger]
                        listed(stats.file_types@, extension) <= stats.total_files by {
                        assert(with_extension(done, extension) <= files_in(done));
                    }
                }
                self.calculate_statistics_recursive(&entry.children[i], stats, depth + 1);
                i = i + 1;
            }
        } else {
            stats.total_files = stats.total_files + 1;
            match entry.size_bytes {
                Some(bytes) => {
                    stats.total_size_bytes = stats.total_size_bytes + bytes;
                },
                None => {},
            }
            match extension(entry.path.as_str()) {
                Some(extension) => {
                    count_extension(&mut stats.file_types, extension);
                },
                None => {},
            }
        }
    }
}

/// Adds the number of entries and of bytes in the tree below the entry to
/// the two counters, as long as they fit; the result tells whether they
/// did.
fn measure(entry: &DirectoryEntry, depth: Ghost<nat>, count: &mut usize, bytes: &mut u64) -> (fits:
    bool)
    ensures
        fits == (*old(count) + nodes_under(*entry, depth@).len() <= usize::MAX && *old(bytes)
            + bytes_in(nodes_under(*entry, depth@)) <= u64::MAX),
        fits ==> *final(count) == *old(count) + nodes_under(*entry, depth@).len(),
        fits ==> *final(bytes) == *old(bytes) + bytes_in(nodes_under(*entry, depth@)),
    decreases entry,
{
    let ghost fact = fact_of(*entry, depth@);
    proof {
        lemma_summaries_one(fact);
    }
    if *count == usize::MAX {
        return false;
    }
    *count = *count + 1;
    if entry.is_directory {
        let ghost below = nodes_among(entry.children@, depth@ + 1, entry.children@.len());
        proof {
            lemma_summaries_add(seq![fact], below);
        }
        let n: usize = entry.children.len();
        let mut i: usize = 0;
        while i < n
            invariant
                n == entry.children@.len(),
                i <= n,
                entry.is_directory,
                fact == fact_of(*entry, depth@),
                below == nodes_among(entry.children@, depth@ + 1, n as nat),
                *count == *old(count) + 1 + nodes_among(
                    entry.children@,
                    depth@ + 1,
                    i as nat,
                ).len(),
                *bytes == *old(bytes) + bytes_in(
                    nodes_among(entry.children@, depth@ + 1, i as nat),
                ),
            decreases n - i,
        {
            let ghost done = nodes_among(entry.children@, depth@ + 1, i as nat);
            let ghost next = nodes_under(entry.children@[i as int], depth@ + 1);
            proof {
                lemma_nodes_among_split(entry.children@, depth@ + 1, (i + 1) as nat, n as nat);
                lemma_summaries_add(done, next);
                lemma_summaries_add(
                    done + next,
                    nodes_among_from(entry.children@, depth@ + 1, (i + 1) as nat, n as nat),
                );
                assert(nodes_among(entry.children@, depth@ + 1, (i + 1) as nat) == done + next);
                assert(nodes_under(*entry, depth@) == seq![fact] + below);
                lemma_summaries_one(fact);
                lemma_summaries_add(seq![fact], below);
                assert(below.len() >= done.len() + next.len());
                assert(bytes_in(below) >= bytes_in(done) + bytes_in(next));
            }
            if !measure(&entry.children[i], Ghost(depth@ + 1), count, bytes) {
                return false;
            }
            i = i + 1;
        }
        true
    } else {
        match entry.size_bytes {
            Some(size) => {
                if size > u64::MAX - *bytes {
                    return false;
                }
                *bytes = *bytes + size;
            },
            None => {},
        }
        true
    }
}

/// Tells whether the statistics of the tree can be counted.
pub fn is_countable(entry: &DirectoryEntry) -> (fits: bool)
    ensures
        fits == countable(*entry),
{
    let mut count: usize = 0;
    let mut bytes: u64 = 0;
    measure(entry, Ghost(0), &mut count, &mut bytes)
}

/// The nodes of the entries from `from` up to `upto`.
pub open spec fn nodes_among_from(
    entries: Seq<DirectoryEntry>,
    depth: nat,
    from: nat,
    upto: nat,
) -> Seq<NodeFact>
    decreases upto,
{
    if upto <= from || upto > entries.len() {
        Seq::empty()
    } else {
        nodes_among_from(entries, depth, from, (upto - 1) as nat) + nodes_under(
            entries[upto - 1],
            depth,
        )
    }
}

/// The nodes of the first `upto` entries are those of the first `from`
/// followed by those of the rest.
pub proof fn lemma_nodes_among_split(
    entries: Seq<DirectoryEntry>,
    depth: nat,
    from: nat,
    upto: nat,
)
    requires
        from <= upto <= entries.len(),
    ensures
        nodes_among(entries, depth, upto) == nodes_among(entries, depth, from) + nodes_among_from(
            entries,
            depth,
            from,
            upto,
        ),
    decreases upto,
{
    if upto > from {
        lemma_nodes_among_split(entries, depth, from, (upto - 1) as nat);
        assert(nodes_among(entries, depth, upto) =~= nodes_among(entries, depth, from)
            + nodes_among_from(entries, depth, from, upto));
    } else {
        assert(nodes_among(entries, depth, upto) =~= nodes_among(entries, depth, from)
            + nodes_among_from(entries, depth, from, upto));
    }
}

} // verus!
