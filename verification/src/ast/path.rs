//! A module path: a sequence of names, kept in one string.
//!
//! The names of a path stand one after the other in a single string, and a
//! list of byte ranges tells them apart. The string holds nothing else, so
//! two paths of the same names are the same data, however they were made.

use crate::text::{
    is_span, lemma_boundary_in_prefix, lemma_span_after_append, same_text, slice_of, span_text,
};
use vstd::prelude::*;
use vstd::slice::slice_subrange;
use vstd::utf8::*;

verus! {

/// The text that `range` cuts out of `def`.
pub open spec fn range_text(def: Seq<char>, range: [usize; 2]) -> Seq<char> {
    decode_utf8(encode_utf8(def).subrange(range[0] as int, range[1] as int))
}

/// True when piece `i` of `slices` covers whole characters of `def` and
/// starts where the piece before it ends.
pub open spec fn piece_fits(def: Seq<char>, slices: Seq<[usize; 2]>, i: int) -> bool {
    &&& is_span(def, slices[i][0] as int, slices[i][1] as int)
    &&& slices[i][0] == piece_start(slices, i)
}

/// True when `slices` cuts `def` into consecutive pieces of whole
/// characters: the first starts at 0, each next one where the one before it
/// ended, and the last ends where `def` ends.
pub open spec fn partitions(def: Seq<char>, slices: Seq<[usize; 2]>) -> bool {
    &&& forall|i: int| 0 <= i < slices.len() ==> #[trigger] piece_fits(def, slices, i)
    &&& encode_utf8(def).len() == piece_start(slices, slices.len() as int)
}

/// Where piece `i` of `slices` has to start: where the piece before it
/// ends, the first one at 0.
pub open spec fn piece_start(slices: Seq<[usize; 2]>, i: int) -> int {
    if 0 < i <= slices.len() {
        slices[i - 1][1] as int
    } else {
        0
    }
}

/// The texts that `slices` cuts out of `def`.
pub open spec fn pieces(def: Seq<char>, slices: Seq<[usize; 2]>) -> Seq<Seq<char>> {
    Seq::new(slices.len(), |i: int| range_text(def, slices[i]))
}

/// Cuts a string at a position between two characters.
///
/// This is `String::truncate`, which keeps the first `len` bytes and
/// panics if `len` lies inside a character.
#[verifier::external_body]
fn truncate(text: &mut String, len: usize)
    requires
        len <= encode_utf8(old(text)@).len(),
        is_char_boundary(encode_utf8(old(text)@), len as int),
    ensures
        encode_utf8(final(text)@) == encode_utf8(old(text)@).subrange(0, len as int),
{
    text.truncate(len)
}

/// A module path such as `main::vert`: a sequence of component names.
#[derive(Debug, Hash)]
pub struct Path {
    def: String,
    slices: Vec<[usize; 2]>,
}

impl View for Path {
    type V = Seq<Seq<char>>;

    /// The component names, in order.
    closed spec fn view(&self) -> Seq<Seq<char>> {
        pieces(self.def@, self.slices@)
    }
}

impl Path {
    /// What holds of every path: its ranges cut its string into the
    /// component names, one behind the other, and nothing is left over.
    #[verifier::type_invariant]
    pub closed spec fn well_formed(&self) -> bool {
        partitions(self.def@, self.slices@)
    }

    /// The data of the path, which is what its hash is made of: the string
    /// that holds the names, and the byte ranges of the names in it.
    pub closed spec fn data(&self) -> (Seq<char>, Seq<[usize; 2]>) {
        (self.def@, self.slices@)
    }

    /// The path of the given component names.
    pub fn from(components: &[&str]) -> (path: Path)
        ensures
            path@.len() == components@.len(),
            forall|i: int| 0 <= i < components@.len() ==> path@[i] == components@[i]@,
    {
        let mut def = String::new();
        let mut slices: Vec<[usize; 2]> = Vec::with_capacity(components.len());
        let mut start: usize = 0;
        proof {
            reveal_strlit("");
            assert(encode_utf8(def@) =~= Seq::<u8>::empty());
        }
        let mut i: usize = 0;
        while i < components.len()
            invariant
                i <= components@.len(),
                slices@.len() == i,
                partitions(def@, slices@),
                start == encode_utf8(def@).len(),
                forall|k: int|
                    0 <= k < i ==> (#[trigger] pieces(def@, slices@)[k]) == components@[k]@,
            decreases components@.len() - i,
        {
            let ghost before = def@;
            let ghost old_slices = slices@;
            let piece: &str = components[i];
            def.append(piece);
            let end = def.as_str().as_bytes().len();
            slices.push([start, end]);
            proof {
                lemma_append_piece(before, old_slices, piece@, [start, end]);
                assert(slices@ =~= old_slices.push([start, end]));
                assert forall|k: int| 0 <= k < i + 1 implies (#[trigger] pieces(def@, slices@)[k])
                    == components@[k]@ by {
                    if k < i {
                        assert(pieces(before, old_slices)[k] == components@[k]@);
                    }
                }
            }
            start = end;
            i += 1;
        }
        Path { def, slices }
    }

    /// The name of component `i`, if the path has that many.
    pub fn component(&self, i: usize) -> (r: Option<&str>)
        ensures
            match r {
                Some(name) => i < self@.len() && name@ == self@[i as int],
                None => i >= self@.len(),
            },
    {
        proof {
            use_type_invariant(self);
        }
        if i < self.slices.len() {
            let range = &self.slices[i];
            assert(piece_fits(self.def@, self.slices@, i as int));
            slice_of(self.def.as_str(), range[0], range[1])
        } else {
            None
        }
    }

    /// The names of all components, in order.
    pub fn components(&self) -> (names: Vec<&str>)
        ensures
            names@.len() == self@.len(),
            forall|i: int| 0 <= i < names@.len() ==> names@[i]@ == self@[i],
    {
        let mut names: Vec<&str> = Vec::new();
        let mut i: usize = 0;
        while i < self.slices.len()
            invariant
                i <= self.slices@.len(),
                self@.len() == self.slices@.len(),
                names@.len() == i,
                forall|k: int| 0 <= k < i ==> names@[k]@ == self@[k],
            decreases self.slices@.len() - i,
        {
            match self.component(i) {
                Some(name) => names.push(name),
                None => {},
            }
            i += 1;
        }
        names
    }

    /// The number of components.
    pub fn len(&self) -> (n: usize)
        ensures
            n == self@.len(),
    {
        self.slices.len()
    }

    /// Whether the path has no component.
    pub fn is_empty(&self) -> (r: bool)
        ensures
            r == (self@.len() == 0),
    {
        self.slices.len() == 0
    }

    /// Removes the last component, and tells whether there was one.
    pub fn parent(&mut self) -> (removed: bool)
        ensures
            removed == (old(self)@.len() > 0),
            final(self)@ == parent_of(old(self)@),
    {
        proof {
            use_type_invariant(&*self);
        }
        let mut taken = Path::from(&[]);
        std::mem::swap(self, &mut taken);
        let Path { def, slices } = taken;
        let mut def = def;
        let mut slices = slices;
        let ghost before = def@;
        let ghost old_slices = slices@;
        match slices.pop() {
            Some(last) => {
                proof {
                    assert(piece_fits(before, old_slices, old_slices.len() - 1));
                    encode_utf8_valid_utf8(before);
                }
                truncate(&mut def, last[0]);
                proof {
                    lemma_drop_piece(before, old_slices, def@);
                    assert(slices@ =~= old_slices.drop_last());
                }
                *self = Path { def, slices };
                true
            },
            None => {
                *self = Path { def, slices };
                false
            },
        }
    }

    /// A view of the path that can be shortened without changing the path.
    pub fn as_slice(&self) -> (slice: PathSlice<'_>)
        ensures
            slice@ == self@,
    {
        proof {
            use_type_invariant(self);
        }
        let rem = self.slices.as_slice();
        assert(rem@ =~= self.slices@.subrange(0, rem@.len() as int));
        PathSlice { path: self, rem }
    }

    /// The path as text: `ast::Path(` and `)` around the names joined by
    /// `::`, or around `<empty>` for the empty path.
    pub fn debug_string(&self) -> (text: String)
        ensures
            text@ == describe(self@),
    {
        let mut text = String::from_str("ast::Path(");
        if self.slices.len() == 0 {
            text.append("<empty>");
        } else {
            let mut i: usize = 0;
            while i < self.slices.len()
                invariant
                    i <= self.slices@.len(),
                    self@.len() == self.slices@.len(),
                    text@ == "ast::Path("@ + joined(self@, i as int),
                decreases self.slices@.len() - i,
            {
                if i > 0 {
                    text.append("::");
                }
                match self.component(i) {
                    Some(name) => text.append(name),
                    None => {},
                }
                assert(text@ =~= "ast::Path("@ + joined(self@, i + 1));
                i += 1;
            }
        }
        text.append(")");
        text
    }
}

/// The path that `parent` leaves: `path` without its last component, and
/// the empty path again when `path` is empty.
pub open spec fn parent_of(path: Seq<Seq<char>>) -> Seq<Seq<char>> {
    if path.len() > 0 {
        path.drop_last()
    } else {
        path
    }
}

/// The path that `count` calls of `parent` leave.
pub open spec fn ancestor_of(path: Seq<Seq<char>>, count: nat) -> Seq<Seq<char>>
    decreases count,
{
    if count == 0 {
        path
    } else {
        ancestor_of(parent_of(path), (count - 1) as nat)
    }
}

/// The first `count` names of `path` joined by `::`.
pub open spec fn joined(path: Seq<Seq<char>>, count: int) -> Seq<char>
    decreases count,
{
    if count <= 0 {
        Seq::empty()
    } else if count == 1 {
        path[0]
    } else {
        joined(path, count - 1) + "::"@ + path[count - 1]
    }
}

/// The text that stands for a path.
pub open spec fn describe(path: Seq<Seq<char>>) -> Seq<char> {
    if path.len() == 0 {
        "ast::Path("@ + "<empty>"@ + ")"@
    } else {
        "ast::Path("@ + joined(path, path.len() as int) + ")"@
    }
}

/// Appending a name to the string and its range to the list keeps the
/// pieces that were there and adds the name as the last one.
proof fn lemma_append_piece(
    def: Seq<char>,
    slices: Seq<[usize; 2]>,
    more: Seq<char>,
    range: [usize; 2],
)
    requires
        partitions(def, slices),
        range[0] == encode_utf8(def).len(),
        range[1] == encode_utf8(def + more).len(),
    ensures
        partitions(def + more, slices.push(range)),
        pieces(def + more, slices.push(range)) == pieces(def, slices).push(more),
{
    let longer = slices.push(range);
    lemma_span_after_append(def, more);
    assert forall|i: int| 0 <= i < longer.len() implies #[trigger] piece_fits(
        def + more,
        longer,
        i,
    ) by {
        if i < slices.len() {
            assert(piece_fits(def, slices, i));
            assert(longer[i] == slices[i]);
            assert(is_span(def, slices[i][0] as int, slices[i][1] as int));
            assert(span_text(def + more, slices[i][0] as int, slices[i][1] as int) is Some);
            assert(piece_start(longer, i) == piece_start(slices, i));
        } else {
            assert(span_text(def + more, range[0] as int, range[1] as int) is Some);
        }
    }
    assert forall|i: int| 0 <= i < longer.len() implies pieces(def + more, longer)[i] == pieces(
        def,
        slices,
    ).push(more)[i] by {
        if i < slices.len() {
            assert(piece_fits(def, slices, i));
            assert(longer[i] == slices[i]);
            assert(is_span(def, slices[i][0] as int, slices[i][1] as int));
            assert(span_text(def + more, slices[i][0] as int, slices[i][1] as int) == span_text(
                def,
                slices[i][0] as int,
                slices[i][1] as int,
            ));
        } else {
            assert(span_text(def + more, range[0] as int, range[1] as int) == Some(more));
        }
    }
    assert(pieces(def + more, longer) =~= pieces(def, slices).push(more));
}

/// Cutting the string where the last piece starts and dropping that piece
/// from the list keeps the other pieces as they were.
proof fn lemma_drop_piece(def: Seq<char>, slices: Seq<[usize; 2]>, shorter: Seq<char>)
    requires
        partitions(def, slices),
        slices.len() > 0,
        encode_utf8(shorter) == encode_utf8(def).subrange(0, slices.last()[0] as int),
    ensures
        partitions(shorter, slices.drop_last()),
        pieces(shorter, slices.drop_last()) == pieces(def, slices).drop_last(),
{
    let kept = slices.drop_last();
    let cut = slices.last()[0] as int;
    let whole = encode_utf8(def);
    let head = encode_utf8(shorter);
    encode_utf8_valid_utf8(def);
    assert(piece_fits(def, slices, slices.len() - 1));
    assert forall|i: int| 0 <= i < kept.len() implies #[trigger] piece_fits(shorter, kept, i) by {
        lemma_kept_piece(def, slices, shorter, i);
    }
    assert forall|i: int| 0 <= i < kept.len() implies #[trigger] pieces(shorter, kept)[i]
        == pieces(def, slices)[i] by {
        lemma_kept_piece(def, slices, shorter, i);
    }
    assert(pieces(shorter, kept) =~= pieces(def, slices).drop_last());
}

/// A piece before the last stays a piece of the string that was cut where
/// the last one starts, with the text that it had.
proof fn lemma_kept_piece(def: Seq<char>, slices: Seq<[usize; 2]>, shorter: Seq<char>, i: int)
    requires
        partitions(def, slices),
        0 <= i < slices.len() - 1,
        encode_utf8(shorter) == encode_utf8(def).subrange(0, slices.last()[0] as int),
    ensures
        piece_fits(shorter, slices.drop_last(), i),
        range_text(shorter, slices[i]) == range_text(def, slices[i]),
{
    let kept = slices.drop_last();
    let cut = slices.last()[0] as int;
    let whole = encode_utf8(def);
    let head = encode_utf8(shorter);
    encode_utf8_valid_utf8(def);
    assert(piece_fits(def, slices, slices.len() - 1));
    assert(piece_fits(def, slices, i));
    assert(kept[i] == slices[i]);
    lemma_pieces_ordered(def, slices, i, slices.len() - 1);
    lemma_boundary_in_prefix(whole, slices[i][0] as int, cut);
    lemma_boundary_in_prefix(whole, slices[i][1] as int, cut);
    assert(head.subrange(slices[i][0] as int, slices[i][1] as int) =~= whole.subrange(
        slices[i][0] as int,
        slices[i][1] as int,
    ));
    assert(piece_start(kept, i) == piece_start(slices, i));
}

/// The encodings of the first `count` of `names`, one behind the other.
pub open spec fn encoded(names: Seq<Seq<char>>, count: int) -> Seq<u8>
    decreases count,
{
    if count <= 0 {
        Seq::empty()
    } else {
        encoded(names, count - 1) + encode_utf8(names[count - 1])
    }
}

/// The string of a path up to the start of piece `count` holds the names
/// before that piece, and each range is as long as its name.
proof fn lemma_pieces_encoded(def: Seq<char>, slices: Seq<[usize; 2]>, count: int)
    requires
        partitions(def, slices),
        0 <= count <= slices.len(),
    ensures
        piece_start(slices, count) == encoded(pieces(def, slices), count).len(),
        encode_utf8(def).take(piece_start(slices, count)) == encoded(pieces(def, slices), count),
    decreases count,
{
    let bytes = encode_utf8(def);
    if count > 0 {
        lemma_pieces_encoded(def, slices, count - 1);
        assert(piece_fits(def, slices, count - 1));
        let start = slices[count - 1][0] as int;
        let end = slices[count - 1][1] as int;
        let piece = bytes.subrange(start, end);
        encode_utf8_valid_utf8(def);
        valid_utf8_split(bytes, end);
        lemma_boundary_in_prefix(bytes, start, end);
        valid_utf8_split(bytes.subrange(0, end), start);
        assert(bytes.subrange(0, end).subrange(start, end) =~= piece);
        decode_utf8_encode_utf8(piece);
        assert(pieces(def, slices)[count - 1] == decode_utf8(piece));
        assert(bytes.take(end) =~= bytes.take(start) + piece);
    } else {
        assert(bytes.take(0) =~= Seq::<u8>::empty());
    }
}

/// Paths of the same names are the same data: the same string, cut at the
/// same places. So whatever is computed from the data of a path, as its
/// hash is, is the same for paths that are equal.
pub proof fn lemma_equal_paths_same_data(a: Path, b: Path)
    requires
        a.well_formed(),
        b.well_formed(),
        a@ == b@,
    ensures
        a.data() == b.data(),
{
    let count = a.slices@.len() as int;
    assert(pieces(a.def@, a.slices@).len() == count);
    assert(pieces(b.def@, b.slices@).len() == b.slices@.len());
    assert(b.slices@.len() == count);
    assert forall|i: int| 0 <= i < count implies a.slices@[i] == b.slices@[i] by {
        lemma_pieces_encoded(a.def@, a.slices@, i);
        lemma_pieces_encoded(b.def@, b.slices@, i);
        lemma_pieces_encoded(a.def@, a.slices@, i + 1);
        lemma_pieces_encoded(b.def@, b.slices@, i + 1);
        assert(piece_fits(a.def@, a.slices@, i));
        assert(piece_fits(b.def@, b.slices@, i));
        assert(a.slices@[i][0] == b.slices@[i][0]);
        assert(a.slices@[i][1] == b.slices@[i][1]);
        assert(a.slices@[i] =~= b.slices@[i]);
    }
    assert(a.slices@ =~= b.slices@);
    lemma_pieces_encoded(a.def@, a.slices@, count);
    lemma_pieces_encoded(b.def@, b.slices@, count);
    let x = encode_utf8(a.def@);
    let y = encode_utf8(b.def@);
    assert(x.take(x.len() as int) =~= x);
    assert(y.take(y.len() as int) =~= y);
    encode_utf8_decode_utf8(a.def@);
    encode_utf8_decode_utf8(b.def@);
}

/// Pieces stand in order: one ends before a later one starts.
proof fn lemma_pieces_ordered(def: Seq<char>, slices: Seq<[usize; 2]>, i: int, j: int)
    requires
        partitions(def, slices),
        0 <= i < j < slices.len(),
    ensures
        slices[i][1] <= slices[j][0],
    decreases j - i,
{
    assert(piece_fits(def, slices, j));
    if i + 1 < j {
        lemma_pieces_ordered(def, slices, i, j - 1);
        assert(piece_fits(def, slices, j - 1));
    }
}

/// `k` calls of `parent` on a path of `n` components leave its first
/// `n - k` components, and `n` calls leave the empty path.
pub proof fn lemma_parent_repeated(path: Seq<Seq<char>>, count: nat)
    requires
        count <= path.len(),
    ensures
        ancestor_of(path, count) == path.take(path.len() - count),
        ancestor_of(path, count).len() == path.len() - count,
        ancestor_of(path, path.len()).len() == 0,
    decreases count,
{
    lemma_parent_count(path, count);
    lemma_parent_count(path, path.len());
}

proof fn lemma_parent_count(path: Seq<Seq<char>>, count: nat)
    requires
        count <= path.len(),
    ensures
        ancestor_of(path, count) == path.take(path.len() - count),
    decreases count,
{
    if count == 0 {
        assert(path.take(path.len() as int) =~= path);
    } else {
        lemma_parent_count(parent_of(path), (count - 1) as nat);
        assert(parent_of(path).take(path.len() - count) =~= path.take(path.len() - count));
    }
}

impl Clone for Path {
    /// A path of the same component names.
    fn clone(&self) -> (copy: Path)
        ensures
            copy@ == self@,
    {
        proof {
            use_type_invariant(self);
        }
        let def = self.def.clone();
        let mut slices: Vec<[usize; 2]> = Vec::new();
        let mut i: usize = 0;
        while i < self.slices.len()
            invariant
                i <= self.slices@.len(),
                slices@ == self.slices@.subrange(0, i as int),
            decreases self.slices@.len() - i,
        {
            let range = &self.slices[i];
            slices.push([range[0], range[1]]);
            assert(slices@[i as int] =~= self.slices@[i as int]);
            assert(slices@ =~= self.slices@.subrange(0, i + 1));
            i += 1;
        }
        assert(slices@ =~= self.slices@);
        Path { def, slices }
    }
}

impl PartialEq for Path {
    /// Two paths are equal when they have the same component names.
    fn eq(&self, other: &Path) -> (r: bool) {
        if self.len() != other.len() {
            return false;
        }
        let mut i: usize = 0;
        while i < self.len()
            invariant
                i <= self@.len(),
                self@.len() == other@.len(),
                forall|k: int| 0 <= k < i ==> self@[k] == other@[k],
            decreases self@.len() - i,
        {
            match (self.component(i), other.component(i)) {
                (Some(a), Some(b)) => {
                    if !same_text(a, b) {
                        return false;
                    }
                },
                _ => {},
            }
            i += 1;
        }
        assert(self@ =~= other@);
        true
    }
}

impl Eq for Path {

}

impl vstd::std_specs::cmp::PartialEqSpecImpl for Path {
    open spec fn obeys_eq_spec() -> bool {
        true
    }

    open spec fn eq_spec(&self, other: &Path) -> bool {
        self@ == other@
    }
}

/// A view of the first components of a path. Shortening it leaves the path
/// as it is.
pub struct PathSlice<'a> {
    path: &'a Path,
    rem: &'a [[usize; 2]],
}

impl<'a> View for PathSlice<'a> {
    type V = Seq<Seq<char>>;

    /// The component names that the view still shows.
    closed spec fn view(&self) -> Seq<Seq<char>> {
        pieces(self.path.def@, self.rem@)
    }
}

impl<'a> PathSlice<'a> {
    #[verifier::type_invariant]
    spec fn well_formed(&self) -> bool {
        &&& self.path.well_formed()
        &&& self.rem@.len() <= self.path.slices@.len()
        &&& self.rem@ == self.path.slices@.subrange(0, self.rem@.len() as int)
    }

    /// Drops the last two components at once, if there are two, and tells
    /// whether any is left. A view of fewer than two components stays as it
    /// is, and the answer is no.
    pub fn pop(&mut self) -> (r: bool)
        ensures
            final(self)@ == popped(old(self)@),
            r == (old(self)@.len() > 2),
    {
        proof {
            use_type_invariant(&*self);
        }
        if self.rem.len() <= 1 {
            return false;
        }
        let ghost before = self.rem@;
        let rem = slice_subrange(self.rem, 0, self.rem.len() - 2);
        proof {
            assert(rem@ =~= self.path.slices@.subrange(0, rem@.len() as int));
            assert(pieces(self.path.def@, rem@) =~= pieces(self.path.def@, before).take(
                before.len() - 2,
            ));
        }
        self.rem = rem;
        self.rem.len() >= 1
    }

    /// The name of component `i`, if the view shows that many.
    pub fn component(&self, i: usize) -> (r: Option<&str>)
        ensures
            match r {
                Some(name) => i < self@.len() && name@ == self@[i as int],
                None => i >= self@.len(),
            },
    {
        proof {
            use_type_invariant(self);
            use_type_invariant(self.path);
        }
        if i < self.rem.len() {
            let range = &self.rem[i];
            assert(self.rem@[i as int] == self.path.slices@[i as int]);
            assert(piece_fits(self.path.def@, self.path.slices@, i as int));
            slice_of(self.path.def.as_str(), range[0], range[1])
        } else {
            None
        }
    }

    /// The number of components that the view shows.
    pub fn len(&self) -> (n: usize)
        ensures
            n == self@.len(),
    {
        self.rem.len()
    }

    /// The view as text, written as a path of its components is.
    pub fn debug_string(&self) -> (text: String)
        ensures
            text@ == describe(self@),
    {
        let mut text = String::from_str("ast::Path(");
        if self.rem.len() == 0 {
            text.append("<empty>");
        } else {
            let mut i: usize = 0;
            while i < self.rem.len()
                invariant
                    i <= self.rem@.len(),
                    self@.len() == self.rem@.len(),
                    text@ == "ast::Path("@ + joined(self@, i as int),
                decreases self.rem@.len() - i,
            {
                if i > 0 {
                    text.append("::");
                }
                match self.component(i) {
                    Some(name) => text.append(name),
                    None => {},
                }
                assert(text@ =~= "ast::Path("@ + joined(self@, i + 1));
                i += 1;
            }
        }
        text.append(")");
        text
    }

    /// Whether the view shows no component.
    pub fn is_empty(&self) -> (r: bool)
        ensures
            r == (self@.len() == 0),
    {
        self.rem.len() == 0
    }
}

/// What `PathSlice::pop` leaves of a view: all but its last two components,
/// or the view itself if it has fewer than two.
pub open spec fn popped(path: Seq<Seq<char>>) -> Seq<Seq<char>> {
    if path.len() >= 2 {
        path.take(path.len() - 2)
    } else {
        path
    }
}

} // verus!
