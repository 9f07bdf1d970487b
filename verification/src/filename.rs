//! File names as byte strings: stem, extension and the image and sidecar rules.

use vstd::prelude::*;

verus! {

/// The byte that separates a file's stem from its extension.
pub const DOT: u8 = 0x2e;

/// The byte that separates the components of a path.
pub const SEPARATOR: u8 = 0x2f;

/// A name that a file can bear: it is not empty, it is neither `.` nor `..`, and
/// it holds no separator.
pub open spec fn spec_is_file_name(name: Seq<u8>) -> bool {
    &&& name.len() > 0
    &&& name != seq![DOT]
    &&& name != seq![DOT, DOT]
    &&& forall|i: int| 0 <= i < name.len() ==> name[i] != SEPARATOR
}

/// The lower-case form of an ASCII letter; every other byte is left as it is.
pub open spec fn spec_lower(b: u8) -> u8 {
    if 0x41 <= b <= 0x5a {
        (b + 0x20) as u8
    } else {
        b
    }
}

/// Two byte strings are equal up to the case of their ASCII letters.
pub open spec fn eq_ignore_case(a: Seq<u8>, b: Seq<u8>) -> bool {
    &&& a.len() == b.len()
    &&& forall|i: int| 0 <= i < a.len() ==> spec_lower(#[trigger] a[i]) == spec_lower(b[i])
}

/// The index of the last dot of `name`, if it holds one.
pub open spec fn last_dot(name: Seq<u8>) -> Option<int>
    decreases name.len(),
{
    if name.len() == 0 {
        None
    } else if name.last() == DOT {
        Some(name.len() - 1)
    } else {
        last_dot(name.drop_last())
    }
}

/// The index of the dot that parts stem and extension. A name without a dot has
/// none, nor has one whose only dot is its first byte, nor has the name `..`.
pub open spec fn split_point(name: Seq<u8>) -> Option<int> {
    if name == seq![DOT, DOT] {
        None
    } else {
        match last_dot(name) {
            Some(i) if i > 0 => Some(i),
            _ => None,
        }
    }
}

/// What follows the splitting dot, if there is one.
pub open spec fn spec_extension(name: Seq<u8>) -> Option<Seq<u8>> {
    match split_point(name) {
        Some(i) => Some(name.subrange(i + 1, name.len() as int)),
        None => None,
    }
}

/// What precedes the splitting dot; the whole name where there is none.
pub open spec fn spec_file_stem(name: Seq<u8>) -> Seq<u8> {
    match split_point(name) {
        Some(i) => name.subrange(0, i),
        None => name,
    }
}

/// The extension `jpg`.
pub open spec fn jpg() -> Seq<u8> {
    seq![0x6a, 0x70, 0x67]
}

/// The extension `jpeg`.
pub open spec fn jpeg() -> Seq<u8> {
    seq![0x6a, 0x70, 0x65, 0x67]
}

/// An extension that marks an image, whatever the case of its letters.
pub open spec fn is_image_extension(ext: Seq<u8>) -> bool {
    eq_ignore_case(ext, jpg()) || eq_ignore_case(ext, jpeg())
}

/// A file name that the scan takes for an image.
pub open spec fn spec_is_image_name(name: Seq<u8>) -> bool {
    match spec_extension(name) {
        Some(ext) => is_image_extension(ext),
        None => false,
    }
}

/// `last_dot` finds a dot after which no dot follows, and finds one whenever the
/// name holds a dot.
pub proof fn lemma_last_dot(name: Seq<u8>)
    ensures
        match last_dot(name) {
            Some(i) => {
                &&& 0 <= i < name.len()
                &&& name[i] == DOT
                &&& forall|j: int| i < j < name.len() ==> name[j] != DOT
            },
            None => forall|j: int| 0 <= j < name.len() ==> name[j] != DOT,
        },
    decreases name.len(),
{
    if name.len() > 0 && name.last() != DOT {
        let front = name.drop_last();
        lemma_last_dot(front);
        assert(forall|j: int| 0 <= j < front.len() ==> front[j] == name[j]);
    }
}

/// A name is split at its last dot, which is not its first byte: the stem is not
/// empty, the extension holds no dot, and stem, dot and extension make up the
/// name. A name that is not split holds no dot after its first byte, or is `..`.
pub proof fn lemma_split_point(name: Seq<u8>)
    ensures
        match split_point(name) {
            Some(i) => {
                &&& 0 < i < name.len()
                &&& name[i] == DOT
                &&& forall|j: int| i < j < name.len() ==> name[j] != DOT
                &&& spec_file_stem(name).len() > 0
                &&& spec_extension(name) is Some
                &&& name == spec_file_stem(name) + seq![DOT] + spec_extension(name)->0
            },
            None => {
                &&& name == seq![DOT, DOT] || forall|j: int| 0 < j < name.len() ==> name[j] != DOT
                &&& spec_file_stem(name) == name
                &&& spec_extension(name) is None
            },
        },
{
    lemma_last_dot(name);
}

/// Whether a file can bear this name: it is not empty, it is neither `.` nor `..`,
/// and it holds no separator.
pub fn is_file_name(name: &Vec<u8>) -> (r: bool)
    ensures
        r == spec_is_file_name(name@),
{
    if name.len() == 0 {
        return false;
    }
    if name.len() == 1 && name[0] == DOT {
        assert(name@ =~= seq![DOT]);
        return false;
    }
    if name.len() == 2 && name[0] == DOT && name[1] == DOT {
        assert(name@ =~= seq![DOT, DOT]);
        return false;
    }
    let mut i: usize = 0;
    while i < name.len()
        invariant
            i <= name.len(),
            forall|k: int| 0 <= k < i ==> name[k] != SEPARATOR,
        decreases name.len() - i,
    {
        if name[i] == SEPARATOR {
            return false;
        }
        i += 1;
    }
    true
}

/// The lower-case form of an ASCII letter; every other byte is left as it is.
pub fn lower(b: u8) -> (r: u8)
    ensures
        r == spec_lower(b),
{
    if 0x41 <= b && b <= 0x5a {
        b + 0x20
    } else {
        b
    }
}

/// Whether `name`, from `start` on, equals `word` up to the case of ASCII letters.
pub fn tail_eq_ignore_case(name: &Vec<u8>, start: usize, word: &Vec<u8>) -> (r: bool)
    requires
        start <= name.len(),
    ensures
        r == eq_ignore_case(name@.subrange(start as int, name.len() as int), word@),
{
    let ghost tail = name@.subrange(start as int, name.len() as int);
    if name.len() - start != word.len() {
        return false;
    }
    let mut i: usize = 0;
    while i < word.len()
        invariant
            start <= name.len(),
            name.len() - start == word.len(),
            tail == name@.subrange(start as int, name.len() as int),
            i <= word.len(),
            forall|k: int| 0 <= k < i ==> spec_lower(#[trigger] tail[k]) == spec_lower(word[k]),
        decreases word.len() - i,
    {
        if lower(name[start + i]) != lower(word[i]) {
            assert(spec_lower(tail[i as int]) != spec_lower(word[i as int]));
            return false;
        }
        i += 1;
    }
    true
}

/// The index of the dot that parts stem and extension, if the name has one.
pub fn find_split(name: &Vec<u8>) -> (r: Option<usize>)
    ensures
        match r {
            Some(i) => 0 < i < name.len() && split_point(name@) == Some(i as int),
            None => split_point(name@) is None,
        },
{
    if name.len() == 2 && name[0] == DOT && name[1] == DOT {
        assert(name@ =~= seq![DOT, DOT]);
        return None;
    }
    let mut i: usize = name.len();
    assert(name@.subrange(0, i as int) =~= name@);
    while i > 0
        invariant
            i <= name.len(),
            name@ != seq![DOT, DOT],
            last_dot(name@) == last_dot(name@.subrange(0, i as int)),
        decreases i,
    {
        let ghost prefix = name@.subrange(0, i as int);
        assert(prefix.drop_last() =~= name@.subrange(0, i - 1));
        if name[i - 1] == DOT {
            if i - 1 > 0 {
                return Some(i - 1);
            } else {
                return None;
            }
        }
        i -= 1;
    }
    None
}

/// The stem of a file name: what precedes the splitting dot, or the whole name
/// where there is none.
pub fn file_stem(name: &Vec<u8>) -> (r: Vec<u8>)
    ensures
        r@ == spec_file_stem(name@),
{
    let end: usize = match find_split(name) {
        Some(i) => i,
        None => name.len(),
    };
    let mut stem: Vec<u8> = Vec::new();
    let mut i: usize = 0;
    while i < end
        invariant
            i <= end <= name.len(),
            stem@ == name@.subrange(0, i as int),
        decreases end - i,
    {
        stem.push(name[i]);
        i += 1;
    }
    stem
}

/// The extension of a file name: what follows the splitting dot, if there is one.
pub fn extension(name: &Vec<u8>) -> (r: Option<Vec<u8>>)
    ensures
        match r {
            Some(ext) => spec_extension(name@) == Some(ext@),
            None => spec_extension(name@) is None,
        },
{
    match find_split(name) {
        Some(dot) => {
            let mut ext: Vec<u8> = Vec::new();
            let mut i: usize = dot + 1;
            while i < name.len()
                invariant
                    dot + 1 <= i <= name.len(),
                    ext@ == name@.subrange(dot + 1, i as int),
                decreases name.len() - i,
            {
                ext.push(name[i]);
                i += 1;
            }
            Some(ext)
        },
        None => None,
    }
}

/// Whether the scan takes a file of this name for an image: its extension is `jpg`
/// or `jpeg`, in any case of the letters.
pub fn is_image_name(name: &Vec<u8>) -> (r: bool)
    ensures
        r == spec_is_image_name(name@),
{
    match find_split(name) {
        Some(i) => {
            let short: Vec<u8> = vec![0x6a, 0x70, 0x67];
            let long: Vec<u8> = vec![0x6a, 0x70, 0x65, 0x67];
            tail_eq_ignore_case(name, i + 1, &short) || tail_eq_ignore_case(name, i + 1, &long)
        },
        None => false,
    }
}

} // verus!
