//! Filesystem paths and directory listings as plain values.
//!
//! The library never touches a disk. Whoever does hands it the paths that
//! were met, each as the sequence of its components, and the listings of
//! the directories that were read.

use crate::error::IoFailure;
use vstd::prelude::*;
use vstd::slice::slice_to_vec;
use vstd::string::StringSliceAdditionalSpecFns;
use vstd::utf8::*;

verus! {

/// One component of a filesystem path. A name is kept as the bytes that the
/// system uses for it, which need not be text.
#[derive(Debug)]
pub enum FsComponent {
    /// A drive or share in front of a Windows path.
    Prefix(Vec<u8>),
    /// The root directory.
    RootDir,
    /// `.`
    CurDir,
    /// `..`
    ParentDir,
    /// The name of a file or a directory.
    Normal(Vec<u8>),
}

/// What an `FsComponent` stands for.
pub enum Part {
    Prefix(Seq<u8>),
    RootDir,
    CurDir,
    ParentDir,
    Normal(Seq<u8>),
}

impl View for FsComponent {
    type V = Part;

    open spec fn view(&self) -> Part {
        match self {
            FsComponent::Prefix(bytes) => Part::Prefix(bytes@),
            FsComponent::RootDir => Part::RootDir,
            FsComponent::CurDir => Part::CurDir,
            FsComponent::ParentDir => Part::ParentDir,
            FsComponent::Normal(bytes) => Part::Normal(bytes@),
        }
    }
}

fn same_bytes(a: &Vec<u8>, b: &Vec<u8>) -> (r: bool)
    ensures
        r == (a@ == b@),
{
    if a.len() != b.len() {
        return false;
    }
    let mut i: usize = 0;
    while i < a.len()
        invariant
            i <= a@.len(),
            a@.len() == b@.len(),
            forall|k: int| 0 <= k < i ==> a@[k] == b@[k],
        decreases a@.len() - i,
    {
        if a[i] != b[i] {
            return false;
        }
        i += 1;
    }
    assert(a@ =~= b@);
    true
}

impl FsComponent {
    /// Whether two components are the same.
    pub fn same(&self, other: &FsComponent) -> (r: bool)
        ensures
            r == (self@ == other@),
    {
        match (self, other) {
            (FsComponent::Prefix(a), FsComponent::Prefix(b)) => same_bytes(a, b),
            (FsComponent::RootDir, FsComponent::RootDir) => true,
            (FsComponent::CurDir, FsComponent::CurDir) => true,
            (FsComponent::ParentDir, FsComponent::ParentDir) => true,
            (FsComponent::Normal(a), FsComponent::Normal(b)) => same_bytes(a, b),
            _ => false,
        }
    }
}

impl Clone for FsComponent {
    fn clone(&self) -> (copy: FsComponent)
        ensures
            copy@ == self@,
    {
        match self {
            FsComponent::Prefix(bytes) => FsComponent::Prefix(slice_to_vec(bytes.as_slice())),
            FsComponent::RootDir => FsComponent::RootDir,
            FsComponent::CurDir => FsComponent::CurDir,
            FsComponent::ParentDir => FsComponent::ParentDir,
            FsComponent::Normal(bytes) => FsComponent::Normal(slice_to_vec(bytes.as_slice())),
        }
    }
}

/// A filesystem path: its components in order.
#[derive(Debug)]
pub struct FsPath {
    pub components: Vec<FsComponent>,
}

impl View for FsPath {
    type V = Seq<Part>;

    open spec fn view(&self) -> Seq<Part> {
        Seq::new(self.components@.len(), |i: int| self.components@[i]@)
    }
}

impl Clone for FsPath {
    fn clone(&self) -> (copy: FsPath)
        ensures
            copy@ == self@,
    {
        let mut components: Vec<FsComponent> = Vec::new();
        let mut i: usize = 0;
        while i < self.components.len()
            invariant
                i <= self.components@.len(),
                components@.len() == i,
                forall|k: int| 0 <= k < i ==> components@[k]@ == self.components@[k]@,
            decreases self.components@.len() - i,
        {
            components.push(self.components[i].clone());
            i += 1;
        }
        let copy = FsPath { components };
        assert(copy@ =~= self@);
        copy
    }
}

impl PartialEq for FsPath {
    /// Two paths are equal when they have the same components.
    fn eq(&self, other: &FsPath) -> (r: bool) {
        if self.components.len() != other.components.len() {
            assert(self@.len() != other@.len());
            return false;
        }
        let mut i: usize = 0;
        while i < self.components.len()
            invariant
                i <= self.components@.len(),
                self.components@.len() == other.components@.len(),
                forall|k: int| 0 <= k < i ==> self@[k] == other@[k],
            decreases self.components@.len() - i,
        {
            if !self.components[i].same(&other.components[i]) {
                assert(self@[i as int] != other@[i as int]);
                return false;
            }
            i += 1;
        }
        assert(self@ =~= other@);
        true
    }
}

impl Eq for FsPath {

}

impl vstd::std_specs::cmp::PartialEqSpecImpl for FsPath {
    open spec fn obeys_eq_spec() -> bool {
        true
    }

    open spec fn eq_spec(&self, other: &FsPath) -> bool {
        self@ == other@
    }
}

/// True when `base` is the beginning of `path`.
pub open spec fn starts_with(path: Seq<Part>, base: Seq<Part>) -> bool {
    base.len() <= path.len() && path.take(base.len() as int) == base
}

/// The index of the last `.` of a name.
pub open spec fn last_dot(name: Seq<u8>) -> Option<int>
    decreases name.len(),
{
    if name.len() == 0 {
        None
    } else if name.last() == 0x2e {
        Some(name.len() - 1)
    } else {
        last_dot(name.drop_last())
    }
}

/// The stem of a file name: the name up to its last `.`, or all of it if it
/// has no `.` or only the one that it starts with.
pub open spec fn stem(name: Seq<u8>) -> Seq<u8> {
    match last_dot(name) {
        Some(at) => if at == 0 {
            name
        } else {
            name.take(at)
        },
        None => name,
    }
}

/// A path without the extension of its file name, which is its last
/// component if that is a name. Where the stem that is left is `.`, the
/// component goes, or stays as the current directory if it is the only one;
/// where it is `..`, it is the parent directory.
pub open spec fn without_extension(path: Seq<Part>) -> Seq<Part> {
    if path.len() == 0 {
        path
    } else {
        match path.last() {
            Part::Normal(name) => {
                let kept = stem(name);
                if kept == seq![0x2eu8] {
                    if path.len() == 1 {
                        seq![Part::CurDir]
                    } else {
                        path.drop_last()
                    }
                } else if kept == seq![0x2eu8, 0x2eu8] {
                    path.drop_last().push(Part::ParentDir)
                } else {
                    path.drop_last().push(Part::Normal(kept))
                }
            },
            _ => path,
        }
    }
}

/// The text that bytes hold, if they are well-formed UTF-8.
///
/// This is `std::str::from_utf8`, which accepts exactly the well-formed
/// byte sequences and hands them back unchanged as a string.
#[verifier::external_body]
pub(crate) fn text_of(bytes: &[u8]) -> (r: Option<&str>)
    ensures
        match r {
            Some(text) => valid_utf8(bytes@) && text.spec_bytes() == bytes@,
            None => !valid_utf8(bytes@),
        },
{
    std::str::from_utf8(bytes).ok()
}

/// The last `.` of a name lies inside the name, and no `.` follows it.
pub proof fn lemma_last_dot(name: Seq<u8>)
    ensures
        match last_dot(name) {
            Some(at) => 0 <= at < name.len() && name[at] == 0x2e && forall|i: int|
                at < i < name.len() ==> name[i] != 0x2e,
            None => forall|i: int| 0 <= i < name.len() ==> name[i] != 0x2e,
        },
    decreases name.len(),
{
    if name.len() > 0 && name.last() != 0x2e {
        let shorter = name.drop_last();
        lemma_last_dot(shorter);
        assert forall|i: int| 0 <= i < shorter.len() implies shorter[i] == name[i] by {}
        match last_dot(shorter) {
            Some(at) => {
                assert forall|i: int| at < i < name.len() implies name[i] != 0x2e by {
                    if i < shorter.len() {
                        assert(shorter[i] != 0x2e);
                    }
                }
            },
            None => {
                assert forall|i: int| 0 <= i < name.len() implies name[i] != 0x2e by {
                    if i < shorter.len() {
                        assert(shorter[i] != 0x2e);
                    }
                }
            },
        }
    }
}

/// The length of the stem of a file name.
pub(crate) fn stem_len(name: &[u8]) -> (len: usize)
    ensures
        len <= name@.len(),
        name@.take(len as int) == stem(name@),
{
    proof {
        lemma_last_dot(name@);
    }
    let mut at = name.len();
    while at > 0 && name[at - 1] != 0x2e
        invariant
            at <= name@.len(),
            forall|i: int| at <= i < name@.len() ==> name@[i] != 0x2e,
        decreases at,
    {
        at -= 1;
    }
    if at <= 1 {
        assert(name@.take(name@.len() as int) =~= name@);
        name.len()
    } else {
        at - 1
    }
}

impl FsPath {
    /// The path without the extension of its file name.
    pub fn without_extension(&self) -> (r: FsPath)
        ensures
            r@ == without_extension(self@),
    {
        let count = self.components.len();
        if count == 0 {
            return self.clone();
        }
        let mut components: Vec<FsComponent> = Vec::new();
        let mut i: usize = 0;
        while i < count - 1
            invariant
                count == self.components@.len(),
                i <= count - 1,
                components@.len() == i,
                forall|k: int| 0 <= k < i ==> components@[k]@ == self.components@[k]@,
            decreases count - i,
        {
            components.push(self.components[i].clone());
            i += 1;
        }
        match &self.components[count - 1] {
            FsComponent::Normal(name) => {
                let kept = stem_len(name.as_slice());
                let mut bytes: Vec<u8> = Vec::new();
                let mut k: usize = 0;
                while k < kept
                    invariant
                        k <= kept <= name@.len(),
                        bytes@ == name@.take(k as int),
                    decreases kept - k,
                {
                    bytes.push(name[k]);
                    assert(bytes@ =~= name@.take(k + 1));
                    k += 1;
                }
                if kept == 1 && bytes[0] == 0x2e {
                    assert(bytes@ =~= seq![0x2eu8]);
                    if count == 1 {
                        components.push(FsComponent::CurDir);
                    }
                } else if kept == 2 && bytes[0] == 0x2e && bytes[1] == 0x2e {
                    assert(bytes@ =~= seq![0x2eu8, 0x2eu8]);
                    components.push(FsComponent::ParentDir);
                } else {
                    assert(bytes@ != seq![0x2eu8]) by {
                        if bytes@ == seq![0x2eu8] {
                            assert(bytes@.len() == 1);
                            assert(bytes@[0] == seq![0x2eu8][0]);
                        }
                    }
                    assert(bytes@ != seq![0x2eu8, 0x2eu8]) by {
                        if bytes@ == seq![0x2eu8, 0x2eu8] {
                            assert(bytes@.len() == 2);
                            assert(bytes@[0] == seq![0x2eu8, 0x2eu8][0]);
                            assert(bytes@[1] == seq![0x2eu8, 0x2eu8][1]);
                        }
                    }
                    components.push(FsComponent::Normal(bytes));
                }
            },
            other => {
                components.push(other.clone());
            },
        }
        let r = FsPath { components };
        assert(r@ =~= without_extension(self@));
        r
    }

    /// Whether the path begins with the components of `base`.
    pub fn starts_with(&self, base: &FsPath) -> (r: bool)
        ensures
            r == starts_with(self@, base@),
    {
        if base.components.len() > self.components.len() {
            return false;
        }
        let mut i: usize = 0;
        while i < base.components.len()
            invariant
                i <= base.components@.len() <= self.components@.len(),
                forall|k: int| 0 <= k < i ==> self@[k] == base@[k],
            decreases base.components@.len() - i,
        {
            if !self.components[i].same(&base.components[i]) {
                assert(self@.take(base@.len() as int)[i as int] != base@[i as int]);
                return false;
            }
            i += 1;
        }
        assert(self@.take(base@.len() as int) =~= base@);
        true
    }
}

/// What can be met in a directory.
#[derive(Debug)]
pub enum DirEntry {
    /// A directory, with its path and what was found in it.
    Dir { path: FsPath, contents: Listing },
    /// A file, with its path.
    File { path: FsPath },
    /// Something that is neither.
    Other,
    /// An entry that could not be read.
    Failed { failure: IoFailure },
}

/// What reading a directory gave: its entries, or the failure to read it.
#[derive(Debug)]
pub enum Listing {
    Entries(Vec<DirEntry>),
    Failed(IoFailure),
}

} // verus!
