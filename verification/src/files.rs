//! The list of a repository's files: sorting, filtering, adding up, paging,
//! sizes in words and the list as comma-separated values.

use vstd::prelude::*;
use vstd::string::StringExecFns;
use crate::paths::{extension, extension_spec, file_name, file_name_spec};
use crate::text::{
    chars_le, chars_of, decimal_digits, decimal_text, digit_char, lemma_text_le_total,
    lemma_text_le_transitive, text_le,
};
use crate::trusted::{lowercase, lowercase_of};

verus! {

/// What the list shows of one file.
#[derive(Debug)]
pub struct FileInfo {
    /// Place of the file in the repository's list of files.
    pub index: usize,
    /// Full path of the file.
    pub path: String,
    /// Number of tokens in the file, or its size in bytes if it is binary.
    pub tokens: usize,
    /// Whether the file is selected.
    pub selected: bool,
    /// Whether the file is binary.
    pub is_binary: bool,
}

/// The model of a file's entry in the list.
pub struct FileInfoView {
    pub index: usize,
    pub path: Seq<char>,
    pub tokens: usize,
    pub selected: bool,
    pub is_binary: bool,
}

impl View for FileInfo {
    type V = FileInfoView;

    open spec fn view(&self) -> FileInfoView {
        FileInfoView {
            index: self.index,
            path: self.path@,
            tokens: self.tokens,
            selected: self.selected,
            is_binary: self.is_binary,
        }
    }
}

impl Clone for FileInfo {
    fn clone(&self) -> (copy: FileInfo)
        ensures
            copy@ == self@,
    {
        FileInfo {
            index: self.index,
            path: self.path.clone(),
            tokens: self.tokens,
            selected: self.selected,
            is_binary: self.is_binary,
        }
    }
}

/// The column that the list is sorted by.
#[derive(Debug, Clone, Copy, PartialEq, Eq, Structural)]
pub enum SortColumn {
    Index,
    Name,
    Tokens,
}

/// The direction that the list is sorted in.
#[derive(Debug, Clone, Copy, PartialEq, Eq, Structural)]
pub enum SortDirection {
    Ascending,
    Descending,
}

/// The name that a file is sorted by: the file name of its path, or the
/// empty text where the path has none.
pub open spec fn sort_name(path: Seq<char>) -> Seq<char> {
    match file_name_spec(path) {
        Some(name) => name,
        None => Seq::empty(),
    }
}

/// Whether the key of file `a` is no greater than the key of file `b`.
pub open spec fn key_le(files: Seq<FileInfo>, column: SortColumn, a: int, b: int) -> bool {
    match column {
        SortColumn::Index => files[a].index <= files[b].index,
        SortColumn::Tokens => files[a].tokens <= files[b].tokens,
        SortColumn::Name => text_le(sort_name(files[a].path@), sort_name(files[b].path@)),
    }
}

/// Whether file `b` may follow file `a` in the sorted list: its key is no
/// less in ascending order, no greater in descending order.
pub open spec fn may_follow(
    files: Seq<FileInfo>,
    column: SortColumn,
    direction: SortDirection,
    a: int,
    b: int,
) -> bool {
    match direction {
        SortDirection::Ascending => key_le(files, column, a, b),
        SortDirection::Descending => key_le(files, column, b, a),
    }
}

/// Where file `x` goes into a list that is already in order: behind every
/// file that it may follow, up to the first that it may not.
pub open spec fn sorted_position(
    files: Seq<FileInfo>,
    column: SortColumn,
    direction: SortDirection,
    order: Seq<usize>,
    x: int,
    from: nat,
) -> nat
    decreases order.len() - from,
{
    if from >= order.len() || !may_follow(files, column, direction, order[from as int] as int, x) {
        from
    } else {
        sorted_position(files, column, direction, order, x, from + 1)
    }
}

/// The first `upto` files in sorted order; files with equal keys keep their
/// order.
pub open spec fn sorted_order(
    files: Seq<FileInfo>,
    column: SortColumn,
    direction: SortDirection,
    upto: nat,
) -> Seq<usize>
    decreases upto,
{
    if upto == 0 || upto > files.len() {
        Seq::empty()
    } else {
        let rest = sorted_order(files, column, direction, (upto - 1) as nat);
        rest.insert(
            sorted_position(files, column, direction, rest, upto - 1, 0) as int,
            (upto - 1) as usize,
        )
    }
}

/// The list in sorted order.
pub open spec fn sorted_files(files: Seq<FileInfo>, column: SortColumn, direction: SortDirection) -> Seq<
    FileInfoView,
> {
    Seq::new(
        files.len(),
        |k: int| files[sorted_order(files, column, direction, files.len())[k] as int]@,
    )
}

/// The sorted position lies behind the files that `x` may follow and before
/// the first that it may not.
pub proof fn lemma_sorted_position(
    files: Seq<FileInfo>,
    column: SortColumn,
    direction: SortDirection,
    order: Seq<usize>,
    x: int,
    from: nat,
)
    requires
        from <= order.len(),
    ensures
        from <= sorted_position(files, column, direction, order, x, from) <= order.len(),
        forall|j: int|
            from <= j < sorted_position(files, column, direction, order, x, from) ==> may_follow(
                files,
                column,
                direction,
                (#[trigger] order[j]) as int,
                x,
            ),
        sorted_position(files, column, direction, order, x, from) < order.len() ==> !may_follow(
            files,
            column,
            direction,
            order[sorted_position(files, column, direction, order, x, from) as int] as int,
            x,
        ),
    decreases order.len() - from,
{
    if from < order.len() && may_follow(files, column, direction, order[from as int] as int, x) {
        lemma_sorted_position(files, column, direction, order, x, from + 1);
    }
}

/// `order` lists each of the first `upto` files once, and of any two files
/// the later may follow the earlier; files that may follow each other are
/// in the order they came in.
pub open spec fn is_sorted_order(
    files: Seq<FileInfo>,
    column: SortColumn,
    direction: SortDirection,
    order: Seq<usize>,
    upto: int,
) -> bool {
    &&& order.len() == upto
    &&& forall|k: int| 0 <= k < order.len() ==> (#[trigger] order[k]) < upto
    &&& forall|i: usize| i < upto ==> #[trigger] order.contains(i)
    &&& forall|j: int, k: int|
        0 <= j < k < order.len() ==> {
            &&& may_follow(
                files,
                column,
                direction,
                (#[trigger] order[j]) as int,
                (#[trigger] order[k]) as int,
            )
            &&& (may_follow(files, column, direction, order[k] as int, order[j] as int)
                ==> order[j] < order[k])
        }
}

/// Following is total and transitive.
pub proof fn lemma_may_follow(
    files: Seq<FileInfo>,
    column: SortColumn,
    direction: SortDirection,
    a: int,
    b: int,
    c: int,
)
    ensures
        may_follow(files, column, direction, a, b) || may_follow(files, column, direction, b, a),
        may_follow(files, column, direction, a, b) && may_follow(files, column, direction, b, c)
            ==> may_follow(files, column, direction, a, c),
{
    let na = sort_name(files[a].path@);
    let nb = sort_name(files[b].path@);
    let nc = sort_name(files[c].path@);
    lemma_text_le_total(na, nb);
    if text_le(na, nb) && text_le(nb, nc) {
        lemma_text_le_transitive(na, nb, nc);
    }
    if text_le(nc, nb) && text_le(nb, na) {
        lemma_text_le_transitive(nc, nb, na);
    }
}

/// The sorted order is sorted, stable and complete.
pub proof fn lemma_sorted_order(
    files: Seq<FileInfo>,
    column: SortColumn,
    direction: SortDirection,
    upto: nat,
)
    requires
        upto <= files.len(),
        files.len() <= usize::MAX,
    ensures
        is_sorted_order(
            files,
            column,
            direction,
            sorted_order(files, column, direction, upto),
            upto as int,
        ),
    decreases upto,
{
    if upto > 0 {
        let rest = sorted_order(files, column, direction, (upto - 1) as nat);
        let x = (upto - 1) as usize;
        let p = sorted_position(files, column, direction, rest, upto - 1, 0) as int;
        let order = sorted_order(files, column, direction, upto);
        lemma_sorted_order(files, column, direction, (upto - 1) as nat);
        lemma_sorted_position(files, column, direction, rest, upto - 1, 0);
        assert(order == rest.insert(p, x));
        assert forall|i: usize| i < upto implies #[trigger] order.contains(i) by {
            if i < upto - 1 {
                assert(rest.contains(i));
                let k = choose|k: int| 0 <= k < rest.len() && rest[k] == i;
                if k < p {
                    assert(order[k] == i);
                } else {
                    assert(order[k + 1] == i);
                }
            } else {
                assert(order[p] == i);
            }
        }
        assert forall|j: int, k: int| 0 <= j < k < order.len() implies {
            &&& may_follow(
                files,
                column,
                direction,
                (#[trigger] order[j]) as int,
                (#[trigger] order[k]) as int,
            )
            &&& (may_follow(files, column, direction, order[k] as int, order[j] as int)
                ==> order[j] < order[k])
        } by {
            if k < p {
                assert(order[j] == rest[j] && order[k] == rest[k]);
            } else if k == p {
                assert(order[j] == rest[j]);
            } else if j < p {
                assert(order[j] == rest[j] && order[k] == rest[k - 1]);
            } else if j == p {
                assert(order[k] == rest[k - 1]);
                // The file at the sorted position may not be followed by x,
                // so x may be followed by it, and by all behind it.
                lemma_may_follow(files, column, direction, rest[p] as int, x as int, x as int);
                if p < k - 1 {
                    lemma_may_follow(
                        files,
                        column,
                        direction,
                        x as int,
                        rest[p] as int,
                        rest[k - 1] as int,
                    );
                }
                if may_follow(files, column, direction, rest[k - 1] as int, x as int) {
                    if p < k - 1 {
                        lemma_may_follow(
                            files,
                            column,
                            direction,
                            rest[p] as int,
                            rest[k - 1] as int,
                            x as int,
                        );
                    }
                }
            } else {
                assert(order[j] == rest[j - 1] && order[k] == rest[k - 1]);
            }
        }
    }
}

/// In a sorted list, the place behind the last file that `x` may follow is
/// the sorted position of `x`.
pub proof fn lemma_position_from_the_end(
    files: Seq<FileInfo>,
    column: SortColumn,
    direction: SortDirection,
    order: Seq<usize>,
    x: int,
    p: int,
)
    requires
        is_sorted_order(files, column, direction, order, order.len() as int),
        0 <= p <= order.len(),
        p > 0 ==> may_follow(files, column, direction, order[p - 1] as int, x),
        forall|k: int|
            p <= k < order.len() ==> !may_follow(
                files,
                column,
                direction,
                (#[trigger] order[k]) as int,
                x,
            ),
    ensures
        sorted_position(files, column, direction, order, x, 0) == p,
{
    let found = sorted_position(files, column, direction, order, x, 0) as int;
    lemma_sorted_position(files, column, direction, order, x, 0);
    if found < p {
        if found < p - 1 {
            lemma_may_follow(files, column, direction, order[found] as int, order[p - 1] as int, x);
        }
    } else if found > p {
        assert(may_follow(files, column, direction, order[p] as int, x));
    }
}

/// The names that the files are sorted by, as characters.
pub fn sort_names(files: &Vec<FileInfo>) -> (names: Vec<Vec<char>>)
    ensures
        names@.len() == files@.len(),
        forall|i: int| 0 <= i < files@.len() ==> (#[trigger] names@[i])@ == sort_name(files@[i].path@),
{
    let mut names: Vec<Vec<char>> = Vec::new();
    let n: usize = files.len();
    let mut i: usize = 0;
    while i < n
        invariant
            n == files@.len(),
            i <= n,
            names@.len() == i,
            forall|j: int| 0 <= j < i ==> (#[trigger] names@[j])@ == sort_name(files@[j].path@),
        decreases n - i,
    {
        let name: Vec<char> = match file_name(files[i].path.as_str()) {
            Some(name) => chars_of(name.as_str()),
            None => Vec::new(),
        };
        names.push(name);
        i = i + 1;
    }
    names
}

/// Tells whether file `b` may follow file `a` in the sorted list.
pub fn follows(
    files: &Vec<FileInfo>,
    names: &Vec<Vec<char>>,
    column: SortColumn,
    direction: SortDirection,
    a: usize,
    b: usize,
) -> (may: bool)
    requires
        a < files@.len(),
        b < files@.len(),
        names@.len() == files@.len(),
        forall|i: int| 0 <= i < files@.len() ==> (#[trigger] names@[i])@ == sort_name(files@[i].path@),
    ensures
        may == may_follow(files@, column, direction, a as int, b as int),
{
    let (low, high) = match direction {
        SortDirection::Ascending => (a, b),
        SortDirection::Descending => (b, a),
    };
    match column {
        SortColumn::Index => files[low].index <= files[high].index,
        SortColumn::Tokens => files[low].tokens <= files[high].tokens,
        SortColumn::Name => chars_le(&names[low], &names[high]),
    }
}

/// The places of the files in sorted order.
pub fn order_files(files: &Vec<FileInfo>, column: SortColumn, direction: SortDirection) -> (order:
    Vec<usize>)
    ensures
        order@ == sorted_order(files@, column, direction, files@.len()),
        is_sorted_order(files@, column, direction, order@, files@.len() as int),
{
    let names = sort_names(files);
    let mut order: Vec<usize> = Vec::new();
    let n: usize = files.len();
    let mut i: usize = 0;
    while i < n
        invariant
            n == files@.len(),
            i <= n,
            names@.len() == n,
            forall|j: int| 0 <= j < n ==> (#[trigger] names@[j])@ == sort_name(files@[j].path@),
            order@ == sorted_order(files@, column, direction, i as nat),
            is_sorted_order(files@, column, direction, order@, i as int),
        decreases n - i,
    {
        // The place is looked for from the end, where it is for a list that
        // is in order already.
        let mut p: usize = order.len();
        while p > 0 && !follows(files, &names, column, direction, order[p - 1], i)
            invariant
                p <= order@.len(),
                i < n,
                n == files@.len(),
                names@.len() == n,
                forall|j: int|
                    0 <= j < n ==> (#[trigger] names@[j])@ == sort_name(files@[j].path@),
                forall|k: int| 0 <= k < order@.len() ==> (#[trigger] order@[k]) < i,
                forall|k: int|
                    p <= k < order@.len() ==> !may_follow(
                        files@,
                        column,
                        direction,
                        (#[trigger] order@[k]) as int,
                        i as int,
                    ),
            decreases p,
        {
            p = p - 1;
        }
        proof {
            lemma_position_from_the_end(files@, column, direction, order@, i as int, p as int);
        }
        order.insert(p, i);
        proof {
            lemma_sorted_order(files@, column, direction, (i + 1) as nat);
        }
        i = i + 1;
    }
    order
}

/// Sorts the list by the given column in the given direction; files with
/// equal keys keep their order.
pub fn sort_file_list(files: &mut Vec<FileInfo>, column: SortColumn, direction: SortDirection)
    ensures
        final(files)@.len() == old(files)@.len(),
        forall|k: int|
            0 <= k < old(files)@.len() ==> (#[trigger] final(files)@[k])@ == sorted_files(
                old(files)@,
                column,
                direction,
            )[k],
{
    let order = order_files(files, column, direction);
    let mut sorted: Vec<FileInfo> = Vec::new();
    let n: usize = files.len();
    let mut k: usize = 0;
    while k < n
        invariant
            n == files@.len(),
            files@ == old(files)@,
            k <= n,
            order@ == sorted_order(files@, column, direction, files@.len()),
            is_sorted_order(files@, column, direction, order@, n as int),
            sorted@.len() == k,
            forall|j: int|
                0 <= j < k ==> (#[trigger] sorted@[j])@ == sorted_files(
                    files@,
                    column,
                    direction,
                )[j],
        decreases n - k,
    {
        sorted.push(files[order[k]].clone());
        k = k + 1;
    }
    *files = sorted;
}

/// The extensions of the files that are counted in tokens.
pub open spec fn text_extensions() -> Seq<Seq<char>> {
    seq![
        "txt"@,
        "rs"@,
        "py"@,
        "js"@,
        "md"@,
        "html"@,
        "css"@,
        "json"@,
        "yaml"@,
        "toml"@,
    ]
}

/// Whether a file with this path is counted in tokens: its extension, in
/// lower case, is one of the text extensions.
pub open spec fn is_text_path(path: Seq<char>) -> bool {
    match extension_spec(path) {
        Some(extension) => text_extensions().contains(lowercase_of(extension)),
        None => false,
    }
}

/// Tells whether the text is one of the text extensions.
pub fn is_text_extension(extension: &str) -> (is_text: bool)
    ensures
        is_text == text_extensions().contains(extension@),
{
    let mut known: Vec<String> = Vec::new();
    known.push(String::from_str("txt"));
    known.push(String::from_str("rs"));
    known.push(String::from_str("py"));
    known.push(String::from_str("js"));
    known.push(String::from_str("md"));
    known.push(String::from_str("html"));
    known.push(String::from_str("css"));
    known.push(String::from_str("json"));
    known.push(String::from_str("yaml"));
    known.push(String::from_str("toml"));
    let wanted = String::from_str(extension);
    let mut i: usize = 0;
    assert(known@.len() == 10);
    while i < 10
        invariant
            known@.len() == 10,
            i <= 10,
            wanted@ == extension@,
            forall|j: int| 0 <= j < 10 ==> (#[trigger] known@[j])@ == text_extensions()[j],
            forall|j: int| 0 <= j < i ==> text_extensions()[j] != extension@,
        decreases 10 - i,
    {
        if known[i] == wanted {
            assert(text_extensions()[i as int] == extension@);
            return true;
        }
        i = i + 1;
    }
    false
}

/// Tells whether a file with this path is counted in tokens rather than in
/// bytes.
pub fn is_text_file(path: &str) -> (is_text: bool)
    ensures
        is_text == is_text_path(path@),
{
    match extension(path) {
        Some(extension) => {
            let lower = lowercase(extension.as_str());
            is_text_extension(lower.as_str())
        },
        None => false,
    }
}

/// Whether a file passes the filters: its extension is the wanted one, case
/// ignored, unless none is wanted, and its tokens are within the bounds,
/// where 0 stands for no bound.
pub open spec fn passes_filters(
    path: Seq<char>,
    tokens: usize,
    wanted_extension: Seq<char>,
    min_tokens: usize,
    max_tokens: usize,
) -> bool {
    &&& wanted_extension.len() == 0 || (extension_spec(path) matches Some(extension)
        && lowercase_of(extension) == lowercase_of(wanted_extension))
    &&& min_tokens == 0 || tokens >= min_tokens
    &&& max_tokens == 0 || tokens <= max_tokens
}

/// Tells whether a file passes the filters.
pub fn matches_filters(
    path: &str,
    tokens: usize,
    wanted_extension: &str,
    min_tokens: usize,
    max_tokens: usize,
) -> (passes: bool)
    ensures
        passes == passes_filters(path@, tokens, wanted_extension@, min_tokens, max_tokens),
{
    let extension_matches: bool = if wanted_extension.is_empty() {
        true
    } else {
        match extension(path) {
            Some(extension) => lowercase(extension.as_str()) == lowercase(wanted_extension),
            None => false,
        }
    };
    extension_matches && (min_tokens == 0 || tokens >= min_tokens) && (max_tokens == 0 || tokens
        <= max_tokens)
}

/// Bytes in a kilobyte.
pub const KILOBYTE: u64 = 1024;

/// Bytes in a megabyte.
pub const MEGABYTE: u64 = 1024 * 1024;

/// Bytes in a gigabyte.
pub const GIGABYTE: u64 = 1024 * 1024 * 1024;

/// `size / unit` in hundredths, rounded to the nearest, and to the even one
/// of two that are equally near.
pub open spec fn hundredths(size: nat, unit: nat) -> nat {
    let scaled = size * 100;
    let quotient = scaled / unit;
    let rest = scaled % unit;
    if 2 * rest > unit || (2 * rest == unit && quotient % 2 == 1) {
        quotient + 1
    } else {
        quotient
    }
}

/// A number of hundredths with two decimal places.
pub open spec fn two_places(h: nat) -> Seq<char> {
    decimal_digits(h / 100) + seq!['.', digit_char((h % 100) / 10), digit_char(h % 10)]
}

/// A size in words: the bytes alone up to a kilobyte, else the size in the
/// largest unit that it exceeds, with two decimal places, and the bytes in
/// parentheses.
pub open spec fn file_size_text(size: nat) -> Seq<char> {
    if size > GIGABYTE {
        two_places(hundredths(size, GIGABYTE as nat)) + " GB ("@ + decimal_digits(size)
            + " bytes)"@
    } else if size > MEGABYTE {
        two_places(hundredths(size, MEGABYTE as nat)) + " MB ("@ + decimal_digits(size)
            + " bytes)"@
    } else if size > KILOBYTE {
        two_places(hundredths(size, KILOBYTE as nat)) + " KB ("@ + decimal_digits(size)
            + " bytes)"@
    } else {
        decimal_digits(size) + " bytes"@
    }
}

/// `size / unit` in hundredths, rounded to the nearest.
pub fn rounded_hundredths(size: u64, unit: u64) -> (h: u64)
    requires
        unit >= KILOBYTE,
    ensures
        h == hundredths(size as nat, unit as nat),
{
    let scaled: u128 = (size as u128) * 100;
    let quotient: u128 = scaled / (unit as u128);
    let rest: u128 = scaled % (unit as u128);
    assert(quotient < u64::MAX) by (nonlinear_arith)
        requires
            quotient == scaled / (unit as u128),
            scaled <= u64::MAX * 100,
            unit >= 1024,
    ;
    if 2 * rest > unit as u128 || (2 * rest == unit as u128 && quotient % 2 == 1) {
        (quotient + 1) as u64
    } else {
        quotient as u64
    }
}

/// A size in words, such as `1.21 KB (1234 bytes)`.
pub fn format_file_size(size_bytes: usize) -> (text: String)
    ensures
        text@ == file_size_text(size_bytes as nat),
{
    let size: u64 = size_bytes as u64;
    let bytes = decimal_text(size);
    if size <= KILOBYTE {
        let mut text = bytes;
        text.append(" bytes");
        return text;
    }
    let (unit, label) = if size > GIGABYTE {
        (GIGABYTE, " GB (")
    } else if size > MEGABYTE {
        (MEGABYTE, " MB (")
    } else {
        (KILOBYTE, " KB (")
    };
    let h: u64 = rounded_hundredths(size, unit);
    let mut text = decimal_text(h / 100);
    text.append(".");
    text.append(decimal_text((h % 100) / 10).as_str());
    text.append(decimal_text(h % 10).as_str());
    proof {
        reveal_strlit(".");
        assert(decimal_digits(((h % 100) / 10) as nat) == seq![digit_char(((h % 100) / 10) as nat)]);
        assert(decimal_digits((h % 10) as nat) == seq![digit_char((h % 10) as nat)]);
        assert(text@ =~= two_places(h as nat));
    }
    text.append(label);
    text.append(bytes.as_str());
    text.append(" bytes)");
    text
}

/// What the list adds up to.
#[derive(Debug, Clone, Copy, PartialEq, Eq)]
pub struct FileListSummary {
    /// Number of files.
    pub total_files: usize,
    /// Number of files that are counted in tokens.
    pub text_files: usize,
    /// Number of files that are counted in bytes.
    pub binary_files: usize,
    /// Tokens of all text files.
    pub total_tokens: u128,
    /// Bytes of all binary files.
    pub total_binary_size: u128,
    /// Tokens of a text file on average, rounded down; 0 without text files.
    pub avg_tokens: u128,
    /// Bytes of a binary file on average, rounded down; 0 without binary
    /// files.
    pub avg_binary_size: u128,
    /// Most tokens that a text file has; 1 without text files.
    pub max_tokens: usize,
}

/// Number of binary files among the first `upto`.
pub open spec fn binary_count(files: Seq<FileInfo>, upto: nat) -> nat
    decreases upto,
{
    if upto == 0 || upto > files.len() {
        0
    } else {
        binary_count(files, (upto - 1) as nat) + if files[upto - 1].is_binary {
            1nat
        } else {
            0nat
        }
    }
}

/// Tokens of the text files (`binary` false) or bytes of the binary files
/// (`binary` true) among the first `upto`.
pub open spec fn amount(files: Seq<FileInfo>, binary: bool, upto: nat) -> nat
    decreases upto,
{
    if upto == 0 || upto > files.len() {
        0
    } else {
        amount(files, binary, (upto - 1) as nat) + if files[upto - 1].is_binary == binary {
            files[upto - 1].tokens as nat
        } else {
            0nat
        }
    }
}

/// Most tokens of a text file among the first `upto`, and none less than
/// `floor`.
pub open spec fn most_tokens(files: Seq<FileInfo>, floor: nat, upto: nat) -> nat
    decreases upto,
{
    if upto == 0 || upto > files.len() {
        floor
    } else {
        let before = most_tokens(files, floor, (upto - 1) as nat);
        if !files[upto - 1].is_binary && files[upto - 1].tokens > before {
            files[upto - 1].tokens as nat
        } else {
            before
        }
    }
}

/// The quotient, or 0 where there is nothing to divide by.
pub open spec fn average(total: nat, count: nat) -> nat {
    if count == 0 {
        0
    } else {
        total / count
    }
}

/// What a list adds up to.
pub open spec fn summary_spec(files: Seq<FileInfo>) -> FileListSummary {
    let n = files.len();
    let binaries = binary_count(files, n);
    let texts = (n - binaries) as nat;
    FileListSummary {
        total_files: n as usize,
        text_files: texts as usize,
        binary_files: binaries as usize,
        total_tokens: amount(files, false, n) as u128,
        total_binary_size: amount(files, true, n) as u128,
        avg_tokens: average(amount(files, false, n), texts) as u128,
        avg_binary_size: average(amount(files, true, n), binaries) as u128,
        max_tokens: (if texts == 0 {
            1
        } else {
            most_tokens(files, 0, n)
        }) as usize,
    }
}

/// Counts and amounts of a part of the list stay within bounds.
pub proof fn lemma_summary_bounds(files: Seq<FileInfo>, upto: nat)
    requires
        upto <= files.len(),
    ensures
        binary_count(files, upto) <= upto,
        amount(files, false, upto) <= upto * usize::MAX,
        amount(files, true, upto) <= upto * usize::MAX,
        most_tokens(files, 0, upto) <= usize::MAX,
    decreases upto,
{
    if upto > 0 {
        lemma_summary_bounds(files, (upto - 1) as nat);
        assert(upto * usize::MAX == (upto - 1) * usize::MAX + usize::MAX) by (nonlinear_arith);
    }
}

/// Adds the list up: how many files of each kind, their tokens and bytes in
/// total and on average, and the most tokens of a text file.
pub fn summarize(files: &Vec<FileInfo>) -> (summary: FileListSummary)
    ensures
        summary == summary_spec(files@),
{
    let n: usize = files.len();
    let mut binary_files: usize = 0;
    let mut total_tokens: u128 = 0;
    let mut total_binary_size: u128 = 0;
    let mut most: usize = 0;
    let mut i: usize = 0;
    while i < n
        invariant
            n == files@.len(),
            i <= n,
            binary_files == binary_count(files@, i as nat),
            total_tokens == amount(files@, false, i as nat),
            total_binary_size == amount(files@, true, i as nat),
            most == most_tokens(files@, 0, i as nat),
        decreases n - i,
    {
        proof {
            lemma_summary_bounds(files@, i as nat);
            lemma_summary_bounds(files@, (i + 1) as nat);
            assert((i + 1) * usize::MAX <= usize::MAX * usize::MAX) by (nonlinear_arith)
                requires
                    i + 1 <= usize::MAX,
            ;
            assert(usize::MAX * usize::MAX < u128::MAX) by (nonlinear_arith)
                requires
                    usize::MAX <= 0xffff_ffff_ffff_ffff,
            ;
        }
        if files[i].is_binary {
            binary_files = binary_files + 1;
            total_binary_size = total_binary_size + files[i].tokens as u128;
        } else {
            total_tokens = total_tokens + files[i].tokens as u128;
            if files[i].tokens > most {
                most = files[i].tokens;
            }
        }
        i = i + 1;
    }
    proof {
        lemma_summary_bounds(files@, n as nat);
        assert(n * usize::MAX <= usize::MAX * usize::MAX) by (nonlinear_arith)
            requires
                n <= usize::MAX,
        ;
        assert(usize::MAX * usize::MAX < u128::MAX) by (nonlinear_arith)
            requires
                usize::MAX <= 0xffff_ffff_ffff_ffff,
        ;
    }
    let text_files: usize = n - binary_files;
    FileListSummary {
        total_files: n,
        text_files,
        binary_files,
        total_tokens,
        total_binary_size,
        avg_tokens: if text_files == 0 {
            0
        } else {
            total_tokens / (text_files as u128)
        },
        avg_binary_size: if binary_files == 0 {
            0
        } else {
            total_binary_size / (binary_files as u128)
        },
        max_tokens: if text_files == 0 {
            1
        } else {
            most
        },
    }
}

/// The part of a list of `len` rows that page `page` shows.
#[derive(Debug, Clone, Copy, PartialEq, Eq)]
pub struct PageBounds {
    /// Number of pages.
    pub total_pages: usize,
    /// Place of the first row of the page.
    pub start: usize,
    /// Place behind the last row of the page.
    pub end: usize,
}

/// The bounds of a page: pages hold `per_page` rows each, the last one what
/// is left; a page beyond the last is empty.
pub open spec fn page_bounds_spec(len: nat, per_page: nat, page: nat) -> (nat, nat, nat) {
    let total_pages = (len + per_page - 1) / per_page as int;
    let start = if page * per_page > len {
        len
    } else {
        page * per_page
    };
    let end = if start + per_page > len {
        len
    } else {
        start + per_page
    };
    (total_pages as nat, start, end as nat)
}

/// The bounds of a page of the list.
pub fn page_bounds(len: usize, per_page: usize, page: usize) -> (bounds: PageBounds)
    requires
        per_page > 0,
    ensures
        (bounds.total_pages as nat, bounds.start as nat, bounds.end as nat) == page_bounds_spec(
            len as nat,
            per_page as nat,
            page as nat,
        ),
        bounds.start <= bounds.end <= len,
{
    let total: u128 = (len as u128 + per_page as u128 - 1) / (per_page as u128);
    assert(total <= len) by (nonlinear_arith)
        requires
            total == (len + per_page - 1) / (per_page as int),
            per_page > 0,
            len >= 0,
    ;
    assert(0 <= page * per_page <= u128::MAX) by (nonlinear_arith)
        requires
            0 <= page <= usize::MAX,
            0 <= per_page <= usize::MAX,
            usize::MAX <= 0xffff_ffff_ffff_ffff,
    ;
    let offset: u128 = (page as u128) * (per_page as u128);
    let start: usize = if offset > len as u128 {
        len
    } else {
        offset as usize
    };
    let end: usize = if per_page > len - start {
        len
    } else {
        start + per_page
    };
    PageBounds { total_pages: total as usize, start, end }
}

/// What is known of the file with the given path: the tokens and the kind
/// of the first entry from `from` on that has the path, or no tokens and
/// text where none has.
pub open spec fn known_tokens(known: Seq<FileInfo>, path: Seq<char>, from: nat) -> (usize, bool)
    decreases known.len() - from,
{
    if from >= known.len() {
        (0, false)
    } else if known[from as int].path@ == path {
        (known[from as int].tokens, known[from as int].is_binary)
    } else {
        known_tokens(known, path, from + 1)
    }
}

/// The list of the first `upto` paths that pass the filters, each with its
/// place among all paths and with what is known of it.
pub open spec fn filtered_files(
    paths: Seq<String>,
    known: Seq<FileInfo>,
    wanted_extension: Seq<char>,
    min_tokens: usize,
    max_tokens: usize,
    upto: nat,
) -> Seq<FileInfoView>
    decreases upto,
{
    if upto == 0 || upto > paths.len() {
        Seq::empty()
    } else {
        let rest = filtered_files(
            paths,
            known,
            wanted_extension,
            min_tokens,
            max_tokens,
            (upto - 1) as nat,
        );
        let path = paths[upto - 1]@;
        let (tokens, is_binary) = known_tokens(known, path, 0);
        if passes_filters(path, tokens, wanted_extension, min_tokens, max_tokens) {
            rest.push(
                FileInfoView {
                    index: (upto - 1) as usize,
                    path,
                    tokens,
                    selected: false,
                    is_binary,
                },
            )
        } else {
            rest
        }
    }
}

/// The models of the files of a list.
pub open spec fn file_views(files: Seq<FileInfo>) -> Seq<FileInfoView> {
    Seq::new(files.len(), |i: int| files[i]@)
}

/// What is known of the file with the given path.
pub fn lookup_tokens(known: &Vec<FileInfo>, path: &String) -> (found: (usize, bool))
    ensures
        found == known_tokens(known@, path@, 0),
{
    let n: usize = known.len();
    let mut i: usize = 0;
    while i < n
        invariant
            n == known@.len(),
            i <= n,
            known_tokens(known@, path@, 0) == known_tokens(known@, path@, i as nat),
        decreases n - i,
    {
        if known[i].path == *path {
            return (known[i].tokens, known[i].is_binary);
        }
        i = i + 1;
    }
    (0, false)
}

/// Builds the list anew from all paths: those that pass the filters, each
/// with its place among all paths, with the tokens and the kind that the
/// present list knows of it, and not selected.
pub fn filter_file_list(
    paths: &Vec<String>,
    known: &Vec<FileInfo>,
    wanted_extension: &str,
    min_tokens: usize,
    max_tokens: usize,
) -> (files: Vec<FileInfo>)
    ensures
        file_views(files@) == filtered_files(
            paths@,
            known@,
            wanted_extension@,
            min_tokens,
            max_tokens,
            paths@.len(),
        ),
{
    let mut files: Vec<FileInfo> = Vec::new();
    let n: usize = paths.len();
    let mut i: usize = 0;
    assert(file_views(files@) =~= Seq::<FileInfoView>::empty());
    while i < n
        invariant
            n == paths@.len(),
            i <= n,
            file_views(files@) == filtered_files(
                paths@,
                known@,
                wanted_extension@,
                min_tokens,
                max_tokens,
                i as nat,
            ),
        decreases n - i,
    {
        let (tokens, is_binary) = lookup_tokens(known, &paths[i]);
        if matches_filters(paths[i].as_str(), tokens, wanted_extension, min_tokens, max_tokens) {
            let ghost before = file_views(files@);
            let info = FileInfo {
                index: i,
                path: paths[i].clone(),
                tokens,
                selected: false,
                is_binary,
            };
            files.push(info);
            assert(file_views(files@) =~= before.push(info@));
        }
        i = i + 1;
    }
    files
}

/// The place of the first file from `from` on with the given index and
/// path.
pub open spec fn find_file(files: Seq<FileInfo>, index: usize, path: Seq<char>, from: nat) -> Option<
    usize,
>
    decreases files.len() - from,
{
    if from >= files.len() {
        None
    } else if files[from as int].index == index && files[from as int].path@ == path {
        Some(from as usize)
    } else {
        find_file(files, index, path, from + 1)
    }
}

/// Takes down the tokens and the kind of the file with the given index and
/// path: the first such file of the list gets them, no other file changes,
/// and the result tells whether there was one.
pub fn record_token_count(
    files: &mut Vec<FileInfo>,
    index: usize,
    path: &String,
    tokens: usize,
    is_binary: bool,
) -> (found: bool)
    ensures
        final(files)@.len() == old(files)@.len(),
        found == find_file(old(files)@, index, path@, 0) is Some,
        forall|i: int|
            0 <= i < old(files)@.len() ==> (#[trigger] final(files)@[i])@ == (if find_file(
                old(files)@,
                index,
                path@,
                0,
            ) == Some(i as usize) {
                FileInfoView { tokens, is_binary, ..old(files)@[i]@ }
            } else {
                old(files)@[i]@
            }),
{
    let n: usize = files.len();
    let mut i: usize = 0;
    while i < n
        invariant
            n == files@.len(),
            files@ == old(files)@,
            i <= n,
            find_file(files@, index, path@, 0) == find_file(files@, index, path@, i as nat),
        decreases n - i,
    {
        if files[i].index == index && files[i].path == *path {
            let updated = FileInfo {
                index,
                path: files[i].path.clone(),
                tokens,
                selected: files[i].selected,
                is_binary,
            };
            files.set(i, updated);
            return true;
        }
        i = i + 1;
    }
    false
}

/// Number of files among the first `upto` whose tokens have been counted:
/// those with more than none.
pub open spec fn counted_files(files: Seq<FileInfo>, upto: nat) -> nat
    decreases upto,
{
    if upto == 0 || upto > files.len() {
        0
    } else {
        counted_files(files, (upto - 1) as nat) + if files[upto - 1].tokens > 0 {
            1nat
        } else {
            0nat
        }
    }
}

/// Counts the files whose tokens have been counted.
pub fn count_counted(files: &Vec<FileInfo>) -> (counted: usize)
    ensures
        counted == counted_files(files@, files@.len()),
        counted <= files@.len(),
{
    let n: usize = files.len();
    let mut counted: usize = 0;
    let mut i: usize = 0;
    while i < n
        invariant
            n == files@.len(),
            i <= n,
            counted == counted_files(files@, i as nat),
            counted <= i,
        decreases n - i,
    {
        if files[i].tokens > 0 {
            counted = counted + 1;
        }
        i = i + 1;
    }
    counted
}

/// `part` of `whole` in percent, rounded down; 0 of nothing.
pub fn percentage(part: usize, whole: usize) -> (percent: usize)
    requires
        part <= whole,
    ensures
        percent == (if whole == 0 {
            0
        } else {
            (part * 100) / (whole as int)
        }),
        percent <= 100,
{
    if whole == 0 {
        return 0;
    }
    assert((part * 100) / (whole as int) <= 100) by (nonlinear_arith)
        requires
            0 <= part <= whole,
            whole > 0,
    ;
    (((part as u128) * 100) / (whole as u128)) as usize
}

/// The first `upto` characters of a text with a backslash before every
/// comma.
pub open spec fn escaped_commas(text: Seq<char>, upto: nat) -> Seq<char>
    decreases upto,
{
    if upto == 0 || upto > text.len() {
        Seq::empty()
    } else if text[upto - 1] == ',' {
        escaped_commas(text, (upto - 1) as nat) + seq!['\\', ',']
    } else {
        escaped_commas(text, (upto - 1) as nat).push(text[upto - 1])
    }
}

/// The first line of the table of files.
pub open spec fn csv_header() -> Seq<char> {
    "Index,Path,Value,FormattedValue,IsBinary,Type\n"@
}

/// The line of a file in the table: its place, its path with commas
/// escaped, its tokens or bytes as a number and in words, whether it is
/// binary, and its kind.
pub open spec fn csv_row_spec(file: FileInfoView) -> Seq<char> {
    decimal_digits(file.index as nat) + ","@ + escaped_commas(file.path, file.path.len()) + ","@
        + decimal_digits(file.tokens as nat) + ",\""@ + (if file.is_binary {
        file_size_text(file.tokens as nat)
    } else {
        decimal_digits(file.tokens as nat)
    }) + "\","@ + (if file.is_binary {
        "true,Binary\n"@
    } else {
        "false,Text\n"@
    })
}

/// The table of the first `upto` files, without its first line.
pub open spec fn csv_rows(files: Seq<FileInfo>, upto: nat) -> Seq<char>
    decreases upto,
{
    if upto == 0 || upto > files.len() {
        Seq::empty()
    } else {
        csv_rows(files, (upto - 1) as nat) + csv_row_spec(files[upto - 1]@)
    }
}

/// A text with a backslash before every comma.
pub fn escape_commas(text: &str) -> (escaped: String)
    ensures
        escaped@ == escaped_commas(text@, text@.len()),
{
    let chars = chars_of(text);
    let n: usize = chars.len();
    let mut escaped = String::new();
    let mut i: usize = 0;
    while i < n
        invariant
            n == chars@.len(),
            chars@ == text@,
            i <= n,
            escaped@ == escaped_commas(text@, i as nat),
        decreases n - i,
    {
        if chars[i] == ',' {
            escaped.append("\\,");
            proof {
                reveal_strlit("\\,");
                assert("\\,"@ =~= seq!['\\', ',']);
            }
        } else {
            escaped.append(text.substring_char(i, i + 1));
            assert(text@.subrange(i as int, i + 1) =~= seq![text@[i as int]]);
            assert(escaped_commas(text@, i as nat) + seq![text@[i as int]] =~= escaped_commas(
                text@,
                i as nat,
            ).push(text@[i as int]));
        }
        i = i + 1;
    }
    escaped
}

/// The line of a file in the table of files.
pub fn csv_row(file: &FileInfo) -> (row: String)
    ensures
        row@ == csv_row_spec(file@),
{
    let mut row = decimal_text(file.index as u64);
    row.append(",");
    row.append(escape_commas(file.path.as_str()).as_str());
    row.append(",");
    row.append(decimal_text(file.tokens as u64).as_str());
    row.append(",\"");
    if file.is_binary {
        row.append(format_file_size(file.tokens).as_str());
    } else {
        row.append(decimal_text(file.tokens as u64).as_str());
    }
    row.append("\",");
    if file.is_binary {
        row.append("true,Binary\n");
    } else {
        row.append("false,Text\n");
    }
    assert(row@ =~= csv_row_spec(file@));
    row
}

/// The table of files as comma-separated values: the header, then a line
/// for each file.
pub fn csv_table(files: &Vec<FileInfo>) -> (table: String)
    ensures
        table@ == csv_header() + csv_rows(files@, files@.len()),
{
    let mut table = String::from_str("Index,Path,Value,FormattedValue,IsBinary,Type\n");
    let n: usize = files.len();
    let mut i: usize = 0;
    assert(table@ =~= csv_header() + csv_rows(files@, 0));
    while i < n
        invariant
            n == files@.len(),
            i <= n,
            table@ == csv_header() + csv_rows(files@, i as nat),
        decreases n - i,
    {
        table.append(csv_row(&files[i]).as_str());
        assert(table@ =~= csv_header() + csv_rows(files@, (i + 1) as nat));
        i = i + 1;
    }
    table
}

} // verus!
