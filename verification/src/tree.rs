//! The node type of a tree dump and its mathematical view.
//!
//! A dump is an ordered sequence of entries; an entry is a directory, a
//! file, or a trailing summary report. Directories may carry an ordered
//! list of child entries; reports carry the two counters echoed to the
//! user. The `name` is the path segment the entry appends to the path of
//! its parent; a root entry without a name stands for the output
//! directory itself.

use vstd::prelude::*;
use vstd::string::StrSliceExecFns;

verus! {

/// The closed set of entry kinds. Anything else in a document is a parse
/// error, never a silent default.
#[derive(Clone, Copy, Debug, PartialEq, Eq, Structural)]
pub enum EntryType {
    Directory,
    File,
    Report,
}

/// One node of the tree dump.
pub struct Entry {
    pub fs_type: EntryType,
    pub name: Option<String>,
    pub contents: Option<Vec<Entry>>,
    pub directories: Option<u64>,
    pub files: Option<u64>,
}

/// The mathematical shape of an [`Entry`]: strings become character
/// sequences, vectors become sequences.
pub struct EntryView {
    pub fs_type: EntryType,
    pub name: Option<Seq<char>>,
    pub contents: Option<Seq<EntryView>>,
    pub directories: Option<u64>,
    pub files: Option<u64>,
}

pub open spec fn entry_view(e: Entry) -> EntryView
    decreases e,
{
    EntryView {
        fs_type: e.fs_type,
        name: match e.name {
            Option::Some(n) => Option::Some(n@),
            Option::None => Option::None,
        },
        contents: match e.contents {
            Option::Some(v) => Option::Some(entries_view(v@)),
            Option::None => Option::None,
        },
        directories: e.directories,
        files: e.files,
    }
}

pub open spec fn entries_view(s: Seq<Entry>) -> Seq<EntryView>
    decreases s,
{
    if s.len() == 0 {
        Seq::empty()
    } else {
        seq![entry_view(s[0])] + entries_view(s.drop_first())
    }
}

/// `entries_view` maps `entry_view` over the sequence, element by element.
pub proof fn lemma_entries_view(s: Seq<Entry>)
    ensures
        entries_view(s).len() == s.len(),
        forall|i: int|
            0 <= i < s.len() ==> #[trigger] entries_view(s)[i] == entry_view(s[i]),
    decreases s.len(),
{
    if s.len() > 0 {
        lemma_entries_view(s.drop_first());
    }
}

/// `a` matches `b` up to letter case, where `b` is a lowercase ASCII
/// letter or any exact character.
pub open spec fn char_ieq(a: char, b: char) -> bool {
    a == b || ('a' as u32 <= b as u32 && b as u32 <= 'z' as u32 && a as u32 + 32 == b as u32)
}

pub open spec fn eq_ignore_case(s: Seq<char>, t: Seq<char>) -> bool {
    s.len() == t.len() && forall|i: int| 0 <= i < s.len() ==> char_ieq(s[i], #[trigger] t[i])
}

/// The meaning of a document's type tag: one of the three known kinds,
/// matched without regard to letter case, and nothing else.
pub open spec fn parse_type_spec(s: Seq<char>) -> Option<EntryType> {
    if eq_ignore_case(s, "directory"@) {
        Option::Some(EntryType::Directory)
    } else if eq_ignore_case(s, "file"@) {
        Option::Some(EntryType::File)
    } else if eq_ignore_case(s, "report"@) {
        Option::Some(EntryType::Report)
    } else {
        Option::None
    }
}

fn tag_eq_ci(s: &str, lit: &str) -> (r: bool)
    ensures
        r == eq_ignore_case(s@, lit@),
{
    let n = s.unicode_len();
    let m = lit.unicode_len();
    if n != m {
        return false;
    }
    let mut i: usize = 0;
    while i < n
        invariant
            i <= n,
            n == s@.len(),
            n == lit@.len(),
            forall|j: int| 0 <= j < i ==> char_ieq(s@[j], #[trigger] lit@[j]),
        decreases n - i,
    {
        let a = s.get_char(i);
        let b = lit.get_char(i);
        let au = a as u32;
        let bu = b as u32;
        let ok = au == bu || (97 <= bu && bu <= 122 && bu >= 32 && au == bu - 32);
        if !ok {
            proof {
                assert(!char_ieq(s@[i as int], lit@[i as int]));
            }
            return false;
        }
        i += 1;
    }
    true
}

/// Decide the type tag of a document entry. Exactly the three known tags
/// are accepted, in any letter case; every other tag is rejected, so an
/// unknown kind is a parse error and never a silent default.
pub fn parse_entry_type(tag: &str) -> (r: Option<EntryType>)
    ensures
        r == parse_type_spec(tag@),
{
    if tag_eq_ci(tag, "directory") {
        Option::Some(EntryType::Directory)
    } else if tag_eq_ci(tag, "file") {
        Option::Some(EntryType::File)
    } else if tag_eq_ci(tag, "report") {
        Option::Some(EntryType::Report)
    } else {
        Option::None
    }
}

/// A name is a safe single path segment: no path separators, and not the
/// parent-directory reference, so a walk can never climb out of the
/// output directory.
pub open spec fn valid_segment_spec(s: Seq<char>) -> bool {
    !s.contains('/') && !s.contains('\\') && s != seq!['.', '.']
}

pub fn valid_segment(name: &str) -> (r: bool)
    ensures
        r == valid_segment_spec(name@),
{
    let n = name.unicode_len();
    let mut i: usize = 0;
    while i < n
        invariant
            i <= n,
            n == name@.len(),
            forall|j: int| 0 <= j < i ==> #[trigger] name@[j] != '/' && name@[j] != '\\',
        decreases n - i,
    {
        let c = name.get_char(i);
        if c == '/' {
            proof {
                assert(name@.contains('/'));
            }
            return false;
        }
        if c == '\\' {
            proof {
                assert(name@.contains('\\'));
            }
            return false;
        }
        i += 1;
    }
    proof {
        assert(!name@.contains('/'));
        assert(!name@.contains('\\'));
    }
    if n == 2 {
        let c0 = name.get_char(0);
        let c1 = name.get_char(1);
        if c0 == '.' && c1 == '.' {
            proof {
                assert(name@ =~= seq!['.', '.']);
            }
            return false;
        }
        proof {
            assert(name@ != seq!['.', '.']) by {
                if name@ == seq!['.', '.'] {
                    assert(name@[0] == '.' && name@[1] == '.');
                }
            }
        }
        return true;
    }
    proof {
        assert(seq!['.', '.'].len() == 2);
    }
    true
}

pub open spec fn name_ok(e: EntryView) -> bool {
    match e.name {
        Option::Some(n) => valid_segment_spec(n),
        Option::None => true,
    }
}

/// Every name in the subtree is a safe path segment.
pub open spec fn valid_tree_spec(e: EntryView) -> bool
    decreases e,
{
    name_ok(e) && match e.contents {
        Option::Some(cs) => valid_children_spec(cs),
        Option::None => true,
    }
}

pub open spec fn valid_children_spec(cs: Seq<EntryView>) -> bool
    decreases cs,
{
    cs.len() == 0 || (valid_tree_spec(cs[0]) && valid_children_spec(cs.drop_first()))
}

pub proof fn lemma_valid_children_iff(cs: Seq<EntryView>)
    ensures
        valid_children_spec(cs) <==> forall|i: int|
            0 <= i < cs.len() ==> valid_tree_spec(#[trigger] cs[i]),
    decreases cs.len(),
{
    if cs.len() > 0 {
        lemma_valid_children_iff(cs.drop_first());
        assert forall|i: int|
            0 <= i < cs.len() && valid_tree_spec(cs[0]) && valid_children_spec(
                cs.drop_first(),
            ) implies valid_tree_spec(#[trigger] cs[i]) by {
            if i > 0 {
                assert(cs.drop_first()[i - 1] == cs[i]);
            }
        }
        if forall|i: int| 0 <= i < cs.len() ==> valid_tree_spec(#[trigger] cs[i]) {
            assert forall|i: int|
                0 <= i < cs.drop_first().len() implies valid_tree_spec(
                #[trigger] cs.drop_first()[i],
            ) by {
                assert(cs.drop_first()[i] == cs[i + 1]);
            }
        }
    }
}

/// Check every name in a subtree before anything touches the disk.
pub fn valid_tree(entry: &Entry) -> (r: bool)
    ensures
        r == valid_tree_spec(entry@),
    decreases *entry,
{
    if let Option::Some(name) = &entry.name {
        if !valid_segment(name.as_str()) {
            return false;
        }
    }
    if let Option::Some(contents) = &entry.contents {
        proof {
            lemma_entries_view(contents@);
        }
        let ghost cs = entries_view(contents@);
        let mut i: usize = 0;
        while i < contents.len()
            invariant
                i <= contents.len(),
                entry.contents == Option::Some(*contents),
                name_ok(entry@),
                cs == entries_view(contents@),
                cs.len() == contents@.len(),
                forall|j: int| 0 <= j < cs.len() ==> #[trigger] cs[j] == contents@[j]@,
                forall|j: int| 0 <= j < i ==> valid_tree_spec(#[trigger] cs[j]),
            decreases contents.len() - i,
        {
            proof {
                assert(entry.contents->0 == *contents);
                assert(decreases_to!(*entry => entry.contents));
                assert(decreases_to!(entry.contents => entry.contents->0));
                assert(decreases_to!(*contents => contents@));
                assert(decreases_to!(contents@ => contents@[i as int]));
            }
            if !valid_tree(&contents[i]) {
                proof {
                    lemma_valid_children_iff(cs);
                    assert(!valid_tree_spec(cs[i as int]));
                    assert(!valid_children_spec(cs));
                    assert(entry@.contents == Option::Some(cs));
                }
                return false;
            }
            i += 1;
        }
        proof {
            lemma_valid_children_iff(cs);
        }
        true
    } else {
        true
    }
}

impl View for Entry {
    type V = EntryView;

    open spec fn view(&self) -> EntryView {
        entry_view(*self)
    }
}

impl DeepView for Entry {
    type V = EntryView;

    open spec fn deep_view(&self) -> EntryView {
        entry_view(*self)
    }
}

} // verus!
