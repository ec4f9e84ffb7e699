//! File names and extensions of paths.
//!
//! A path is a text whose components are separated by `/`. Its file name is
//! its last component, where empty components and components `.` do not
//! count; a path that ends in the component `..` has no file name, nor has
//! one without any component that counts.

use vstd::prelude::*;
use vstd::string::StringExecFns;
use crate::text::chars_of;

verus! {

/// The character that separates the components of a path.
pub const SEPARATOR: char = '/';

/// The character that separates a file name from its extension.
pub const DOT: char = '.';

/// Where the last component of the text begins: behind its last separator,
/// or at 0 where it has none.
pub open spec fn last_component_start(text: Seq<char>) -> nat
    decreases text.len(),
{
    if text.len() == 0 || text.last() == SEPARATOR {
        text.len()
    } else {
        last_component_start(text.drop_last())
    }
}

/// The file name of a path: its last component that is neither empty nor
/// `.`, unless that is `..`.
pub open spec fn file_name_spec(path: Seq<char>) -> Option<Seq<char>>
    decreases path.len(),
{
    let start = last_component_start(path);
    let component = path.skip(start as int);
    if component.len() == 0 || component == seq![DOT] {
        if start == 0 || start > path.len() {
            None
        } else {
            file_name_spec(path.take(start - 1))
        }
    } else if component == seq![DOT, DOT] {
        None
    } else {
        Some(component)
    }
}

/// Where the text behind the last dot of a name begins; 0 where the name
/// has no dot.
pub open spec fn last_dot_end(name: Seq<char>) -> nat
    decreases name.len(),
{
    if name.len() == 0 {
        0
    } else if name.last() == DOT {
        name.len()
    } else {
        last_dot_end(name.drop_last())
    }
}

/// The extension of a file name: what follows its last dot, where it has a
/// dot that is not its first character.
pub open spec fn name_extension(name: Seq<char>) -> Option<Seq<char>> {
    let end = last_dot_end(name);
    if end <= 1 {
        None
    } else {
        Some(name.skip(end as int))
    }
}

/// The extension of a path: that of its file name.
pub open spec fn extension_spec(path: Seq<char>) -> Option<Seq<char>> {
    match file_name_spec(path) {
        Some(name) => name_extension(name),
        None => None,
    }
}

/// The last component begins within the text, behind a separator or at the
/// start, and holds no separator.
pub proof fn lemma_last_component_start(text: Seq<char>)
    ensures
        last_component_start(text) <= text.len(),
        last_component_start(text) > 0 ==> text[last_component_start(text) - 1] == SEPARATOR,
        forall|i: int| last_component_start(text) <= i < text.len() ==> text[i] != SEPARATOR,
    decreases text.len(),
{
    if text.len() > 0 && text.last() != SEPARATOR {
        lemma_last_component_start(text.drop_last());
        let start = last_component_start(text.drop_last());
        assert(last_component_start(text) == start);
        assert forall|i: int| start <= i < text.len() implies text[i] != SEPARATOR by {
            if i < text.len() - 1 {
                assert(text.drop_last()[i] == text[i]);
            }
        }
        if start > 0 {
            assert(text.drop_last()[start - 1] == text[start - 1]);
        }
    }
}

/// A position behind a separator, or the start, from which on the text
/// holds no separator is where the last component begins.
pub proof fn lemma_component_start_found(text: Seq<char>, start: int)
    requires
        0 <= start <= text.len(),
        start > 0 ==> text[start - 1] == SEPARATOR,
        forall|i: int| start <= i < text.len() ==> text[i] != SEPARATOR,
    ensures
        last_component_start(text) == start,
    decreases text.len(),
{
    if text.len() > 0 && text.last() != SEPARATOR {
        assert(start < text.len());
        let shorter = text.drop_last();
        assert forall|i: int| start <= i < shorter.len() implies shorter[i] != SEPARATOR by {
            assert(shorter[i] == text[i]);
        }
        if start > 0 {
            assert(shorter[start - 1] == text[start - 1]);
        }
        lemma_component_start_found(shorter, start);
    } else if text.len() > 0 {
        assert(start == text.len());
    }
}

/// Behind the last dot of a name there is no dot.
pub proof fn lemma_last_dot_end(name: Seq<char>)
    ensures
        last_dot_end(name) <= name.len(),
        last_dot_end(name) > 0 ==> name[last_dot_end(name) - 1] == DOT,
        forall|i: int| last_dot_end(name) <= i < name.len() ==> name[i] != DOT,
    decreases name.len(),
{
    if name.len() > 0 && name.last() != DOT {
        lemma_last_dot_end(name.drop_last());
        let end = last_dot_end(name.drop_last());
        assert forall|i: int| end <= i < name.len() implies name[i] != DOT by {
            if i < name.len() - 1 {
                assert(name.drop_last()[i] == name[i]);
            }
        }
        if end > 0 {
            assert(name.drop_last()[end - 1] == name[end - 1]);
        }
    }
}

/// A position behind a dot, or the start, from which on the name holds no
/// dot is where the text behind the last dot begins.
pub proof fn lemma_dot_end_found(name: Seq<char>, end: int)
    requires
        0 <= end <= name.len(),
        end > 0 ==> name[end - 1] == DOT,
        forall|i: int| end <= i < name.len() ==> name[i] != DOT,
    ensures
        last_dot_end(name) == end,
    decreases name.len(),
{
    if name.len() > 0 && name.last() != DOT {
        let shorter = name.drop_last();
        assert forall|i: int| end <= i < shorter.len() implies shorter[i] != DOT by {
            assert(shorter[i] == name[i]);
        }
        if end > 0 {
            assert(shorter[end - 1] == name[end - 1]);
        }
        lemma_dot_end_found(shorter, end);
    } else if name.len() > 0 {
        assert(end == name.len());
    }
}

/// A file name is a component of its path that counts: it is not empty,
/// holds no separator and is neither `.` nor `..`.
pub proof fn law_file_name_is_a_component(path: Seq<char>)
    ensures
        file_name_spec(path) matches Some(name) ==> {
            &&& name.len() > 0
            &&& forall|i: int| 0 <= i < name.len() ==> name[i] != SEPARATOR
            &&& name != seq![DOT]
            &&& name != seq![DOT, DOT]
        },
    decreases path.len(),
{
    lemma_last_component_start(path);
    let start = last_component_start(path);
    let component = path.skip(start as int);
    if component.len() == 0 || component == seq![DOT] {
        if start > 0 {
            law_file_name_is_a_component(path.take(start - 1));
        }
    } else if component != seq![DOT, DOT] {
        assert forall|i: int| 0 <= i < component.len() implies component[i] != SEPARATOR by {
            assert(component[i] == path[start + i]);
        }
    }
}

/// An extension holds no dot, and the name that has it begins with
/// something else than the dot before it.
pub proof fn law_extension_has_no_dot(name: Seq<char>)
    ensures
        name_extension(name) matches Some(extension) ==> {
            &&& extension.len() + 2 <= name.len()
            &&& name[name.len() - extension.len() - 1] == DOT
            &&& forall|i: int| 0 <= i < extension.len() ==> extension[i] != DOT
        },
{
    lemma_last_dot_end(name);
    let end = last_dot_end(name);
    if end > 1 {
        let extension = name.skip(end as int);
        assert forall|i: int| 0 <= i < extension.len() implies extension[i] != DOT by {
            assert(extension[i] == name[end + i]);
        }
    }
}

/// Where the file name of the path lies, as a range of its characters.
pub fn file_name_range(chars: &Vec<char>) -> (range: Option<(usize, usize)>)
    ensures
        match range {
            Some((from, to)) => from < to <= chars@.len() && file_name_spec(chars@) == Some(
                chars@.subrange(from as int, to as int),
            ),
            None => file_name_spec(chars@) is None,
        },
{
    let mut end: usize = chars.len();
    assert(chars@.take(end as int) =~= chars@);
    loop
        invariant
            end <= chars@.len(),
            file_name_spec(chars@) == file_name_spec(chars@.take(end as int)),
        decreases end,
    {
        let ghost text = chars@.take(end as int);
        let mut start: usize = end;
        while start > 0 && chars[start - 1] != SEPARATOR
            invariant
                start <= end <= chars@.len(),
                forall|i: int| start <= i < end ==> chars@[i] != SEPARATOR,
            decreases start,
        {
            start = start - 1;
        }
        proof {
            lemma_component_start_found(text, start as int);
            assert(text.skip(start as int) =~= chars@.subrange(start as int, end as int));
        }
        let length: usize = end - start;
        let dotted: bool = length >= 1 && chars[start] == DOT;
        let ghost component = text.skip(start as int);
        proof {
            assert(component.len() == length);
            assert(length >= 1 ==> component[0] == chars@[start as int]);
            assert(length >= 2 ==> component[1] == chars@[start + 1]);
            assert(last_component_start(text) == start);
        }
        if length == 0 || (length == 1 && dotted) {
            proof {
                if length == 1 {
                    assert(component =~= seq![DOT]);
                }
            }
            if start == 0 {
                assert(file_name_spec(text) is None);
                return None;
            }
            assert(text.take(start - 1) =~= chars@.take(start - 1));
            assert(file_name_spec(text) == file_name_spec(text.take(start - 1)));
            end = start - 1;
        } else if length == 2 && dotted && chars[start + 1] == DOT {
            assert(component =~= seq![DOT, DOT]);
            assert(seq![DOT, DOT].len() == 2);
            assert(seq![DOT].len() == 1);
            assert(file_name_spec(text) is None);
            return None;
        } else {
            proof {
                if component == seq![DOT] {
                    assert(seq![DOT].len() == 1 && seq![DOT][0] == DOT);
                }
                if component == seq![DOT, DOT] {
                    assert(seq![DOT, DOT].len() == 2 && seq![DOT, DOT][0] == DOT && seq![
                        DOT,
                        DOT,
                    ][1] == DOT);
                }
                assert(file_name_spec(text) == Some(component));
            }
            return Some((start, end));
        }
    }
}

/// Where the extension of a name lies that takes up the given range of the
/// characters: from the result to the end of the range.
pub fn extension_start(chars: &Vec<char>, from: usize, to: usize) -> (start: Option<usize>)
    requires
        from <= to <= chars@.len(),
    ensures
        match start {
            Some(at) => from <= at <= to && name_extension(
                chars@.subrange(from as int, to as int),
            ) == Some(chars@.subrange(at as int, to as int)),
            None => name_extension(chars@.subrange(from as int, to as int)) is None,
        },
{
    let ghost name = chars@.subrange(from as int, to as int);
    let mut at: usize = to;
    while at > from && chars[at - 1] != DOT
        invariant
            from <= at <= to <= chars@.len(),
            forall|i: int| at <= i < to ==> chars@[i] != DOT,
        decreases at,
    {
        at = at - 1;
    }
    proof {
        assert forall|i: int| at - from <= i < name.len() implies name[i] != DOT by {
            assert(name[i] == chars@[from + i]);
        }
        if at > from {
            assert(name[at - from - 1] == chars@[at - 1]);
        }
        lemma_dot_end_found(name, at - from);
        assert(name.skip(at - from) =~= chars@.subrange(at as int, to as int));
    }
    if at - from <= 1 {
        None
    } else {
        Some(at)
    }
}

/// The file name of a path.
pub fn file_name(path: &str) -> (name: Option<String>)
    ensures
        name is Some == file_name_spec(path@) is Some,
        name matches Some(n) ==> file_name_spec(path@) == Some(n@),
{
    let chars = chars_of(path);
    match file_name_range(&chars) {
        Some((from, to)) => Some(String::from_str(path.substring_char(from, to))),
        None => None,
    }
}

/// The extension of a path.
pub fn extension(path: &str) -> (ext: Option<String>)
    ensures
        ext is Some == extension_spec(path@) is Some,
        ext matches Some(e) ==> extension_spec(path@) == Some(e@),
{
    let chars = chars_of(path);
    match file_name_range(&chars) {
        Some((from, to)) => match extension_start(&chars, from, to) {
            Some(at) => Some(String::from_str(path.substring_char(at, to))),
            None => None,
        },
        None => None,
    }
}

} // verus!
