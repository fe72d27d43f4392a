//! The module tree: which source file holds which module, and the parsed
//! modules of a compiler session.

use crate::ast::{parse_path, Path};
use crate::config;
use crate::error::{
    CompilerError, CompilerStage, InputError, IoFailure, IoFailureKind, IoFailureView,
};
use crate::fs::{text_of, without_extension, DirEntry, FsComponent, FsPath, Listing, Part};
use crate::grammar;
use crate::grammar::Failure;
use crate::syntax;
use crate::syntax::{parse_module, start_of};
use crate::text::same_text;
use std::sync::{Arc, RwLock, RwLockWriteGuard, TryLockError};
use vstd::prelude::*;
use vstd::utf8::*;

verus! {

/// A module path as its names.
pub type Names = Seq<Seq<char>>;

/// What a `SourceStore` stands for: the roots that were registered, in that
/// order, and the file of each module that was found.
pub struct StoreView {
    pub roots: Seq<Seq<Part>>,
    pub modules: Map<Names, Seq<Part>>,
}

impl StoreView {
    /// The store with one more root.
    pub open spec fn with_root(self, root: Seq<Part>) -> StoreView {
        StoreView { roots: self.roots.push(root), modules: self.modules }
    }

    /// The store with `file` as the file of `module`, whatever file the
    /// module had before.
    pub open spec fn with_module(self, module: Names, file: Seq<Part>) -> StoreView {
        StoreView { roots: self.roots, modules: self.modules.insert(module, file) }
    }
}

/// The failure for a file that does not lie under its root.
pub open spec fn outside_root() -> IoFailureView {
    IoFailureView { kind: IoFailureKind::Other, message: "StripPrefixError: prefix not found"@ }
}

/// The failure for a name that is not text.
pub open spec fn not_text() -> IoFailureView {
    IoFailureView { kind: IoFailureKind::InvalidData, message: "path was not utf8"@ }
}

/// The names among `parts` from `from` on, each as text. Components that
/// are no names are left out. A name that is not text is a failure.
pub open spec fn names_of(parts: Seq<Part>, from: int) -> Result<Names, IoFailureView>
    decreases parts.len() - from,
{
    if from < 0 || from >= parts.len() {
        Ok(Seq::empty())
    } else {
        match parts[from] {
            Part::Normal(name) => if valid_utf8(name) {
                match names_of(parts, from + 1) {
                    Ok(rest) => Ok(seq![decode_utf8(name)] + rest),
                    Err(failure) => Err(failure),
                }
            } else {
                Err(not_text())
            },
            _ => names_of(parts, from + 1),
        }
    }
}

/// The module that a file holds, seen from a root: the names of its path
/// behind the root, the last one without its extension.
pub open spec fn module_of(file: Seq<Part>, root: Seq<Part>) -> Result<Names, IoFailureView> {
    let bare = without_extension(file);
    if crate::fs::starts_with(bare, root) {
        names_of(bare, root.len() as int)
    } else {
        Err(outside_root())
    }
}

/// The store after `path` was registered with what was found in it, and
/// the failure that stopped the walk, if any. A root that is known is left
/// alone. A new one joins the roots, and then its directory is walked.
pub open spec fn discovered(store: StoreView, path: Seq<Part>, contents: Listing) -> (
    StoreView,
    Option<IoFailureView>,
)
    decreases contents, 2nat,
{
    if store.roots.contains(path) {
        (store, None)
    } else {
        walked(store.with_root(path), contents, store.roots.len() as int)
    }
}

/// The store after a directory was walked whose root is root `root`.
pub open spec fn walked(store: StoreView, contents: Listing, root: int) -> (
    StoreView,
    Option<IoFailureView>,
)
    decreases contents, 1nat,
{
    match contents {
        Listing::Failed(failure) => (store, Some(failure@)),
        Listing::Entries(entries) => walked_from(store, entries, 0, root),
    }
}

/// The store after the entries from `from` on were walked, one after the
/// other up to the first failure.
pub open spec fn walked_from(store: StoreView, entries: Vec<DirEntry>, from: int, root: int) -> (
    StoreView,
    Option<IoFailureView>,
)
    decreases entries, entries.len() - from,
{
    if from < 0 || from >= entries.len() {
        (store, None)
    } else {
        let (next, failure) = entered(store, entries[from], root);
        if failure is Some {
            (next, failure)
        } else {
            walked_from(next, entries, from + 1, root)
        }
    }
}

/// The store after one entry was walked. A directory is registered as a
/// root of its own. A file becomes the file of the module that it holds,
/// seen from root `root`.
pub open spec fn entered(store: StoreView, entry: DirEntry, root: int) -> (
    StoreView,
    Option<IoFailureView>,
)
    decreases entry, 0nat,
{
    match entry {
        DirEntry::Dir { path, contents } => discovered(store, path@, contents),
        DirEntry::File { path } => match module_of(path@, store.roots[root]) {
            Ok(module) => (store.with_module(module, path@), None),
            Err(failure) => (store, Some(failure)),
        },
        DirEntry::Other => (store, None),
        DirEntry::Failed { failure } => (store, Some(failure@)),
    }
}

/// The file of the longest beginning of `path` that is a module, if any
/// beginning but the empty one is.
pub open spec fn resolve(modules: Map<Names, Seq<Part>>, path: Names) -> Option<Seq<Part>>
    decreases path.len(),
{
    if path.len() == 0 {
        None
    } else if modules.contains_key(path) {
        Some(modules[path])
    } else {
        resolve(modules, path.drop_last())
    }
}

/// Seen from the directory that holds it, a file is the module of the stem
/// of its name alone, however deep the directory lies.
pub proof fn lemma_module_of_child(root: Seq<Part>, name: Seq<u8>)
    requires
        valid_utf8(crate::fs::stem(name)),
        crate::fs::stem(name) != seq![0x2eu8],
        crate::fs::stem(name) != seq![0x2eu8, 0x2eu8],
    ensures
        module_of(root.push(Part::Normal(name)), root) == Ok::<Names, IoFailureView>(
            seq![decode_utf8(crate::fs::stem(name))],
        ),
{
    let file = root.push(Part::Normal(name));
    let bare = without_extension(file);
    assert(file.drop_last() =~= root);
    assert(bare == root.push(Part::Normal(crate::fs::stem(name))));
    assert(bare.take(root.len() as int) =~= root);
    assert(names_of(bare, root.len() as int + 1) == Ok::<Names, IoFailureView>(Seq::empty()));
    assert(seq![decode_utf8(crate::fs::stem(name))] + Seq::<Seq<char>>::empty() =~= seq![
        decode_utf8(crate::fs::stem(name)),
    ]);
}

/// Resolution finds the longest beginning of a path that is a module: if
/// the first `count` names of `path` are a module and no longer beginning
/// is one, the file of that module is found. If no beginning but the empty
/// one is a module, which is `count == 0`, nothing is found.
pub proof fn lemma_resolve_longest(modules: Map<Names, Seq<Part>>, path: Names, count: int)
    requires
        0 <= count <= path.len(),
        count > 0 ==> modules.contains_key(path.take(count)),
        forall|longer: int|
            count < longer <= path.len() ==> !modules.contains_key(#[trigger] path.take(longer)),
    ensures
        count > 0 ==> resolve(modules, path) == Some(modules[path.take(count)]),
        count == 0 ==> resolve(modules, path) is None,
    decreases path.len(),
{
    assert(path.take(path.len() as int) =~= path);
    if path.len() > count {
        let shorter = path.drop_last();
        assert forall|longer: int| count < longer <= shorter.len() implies !modules.contains_key(
            #[trigger] shorter.take(longer),
        ) by {
            assert(shorter.take(longer) =~= path.take(longer));
        }
        assert(shorter.take(count) =~= path.take(count));
        lemma_resolve_longest(modules, shorter, count);
    }
}

/// Whatever a walk finds, the path that was registered is a root
/// afterwards, and a root that was there before is left alone.
pub proof fn lemma_discovered_root(store: StoreView, path: Seq<Part>, contents: Listing)
    ensures
        discovered(store, path, contents).0.roots.contains(path),
        store.roots.contains(path) ==> discovered(store, path, contents) == (
            store,
            None::<IoFailureView>,
        ),
{
    if !store.roots.contains(path) {
        let grown = store.with_root(path);
        lemma_roots_grow_walked(grown, contents, store.roots.len() as int);
        assert(grown.roots[store.roots.len() as int] == path);
        assert(discovered(store, path, contents).0.roots[store.roots.len() as int] == path);
    }
}

/// Registering a root twice is the same as registering it once: the second
/// time changes nothing and cannot fail, whatever is found in it then.
pub proof fn lemma_discovered_again(
    store: StoreView,
    path: Seq<Part>,
    contents: Listing,
    again: Listing,
)
    ensures
        discovered(discovered(store, path, contents).0, path, again) == (
            discovered(store, path, contents).0,
            None::<IoFailureView>,
        ),
{
    lemma_discovered_root(store, path, contents);
}

/// The map that a list of modules with their files stands for, a later
/// entry replacing an earlier one of the same module.
pub open spec fn modules_of(entries: Seq<(Path, FsPath)>) -> Map<Names, Seq<Part>>
    decreases entries.len(),
{
    if entries.len() == 0 {
        Map::empty()
    } else {
        modules_of(entries.drop_last()).insert(entries.last().0@, entries.last().1@)
    }
}

/// The last entry of a module decides its file.
proof fn lemma_modules_of(entries: Seq<(Path, FsPath)>, module: Names, at: int)
    requires
        -1 <= at < entries.len(),
        at >= 0 ==> entries[at].0@ == module,
        forall|i: int| at < i < entries.len() ==> entries[i].0@ != module,
    ensures
        at >= 0 ==> modules_of(entries).contains_key(module) && modules_of(entries)[module]
            == entries[at].1@,
        at < 0 ==> !modules_of(entries).contains_key(module),
    decreases entries.len(),
{
    if entries.len() > 0 && at < entries.len() - 1 {
        lemma_modules_of(entries.drop_last(), module, at);
    }
}

/// What is known of a source. Nothing is kept yet.
pub struct SourceInfo {}

/// The module tree: the roots that were walked, and for each module that
/// was found the file that holds it.
pub struct SourceStore {
    roots: Vec<FsPath>,
    modules: Vec<(Path, FsPath)>,
}

impl View for SourceStore {
    type V = StoreView;

    closed spec fn view(&self) -> StoreView {
        StoreView {
            roots: Seq::new(self.roots@.len(), |i: int| self.roots@[i]@),
            modules: modules_of(self.modules@),
        }
    }
}

/// The names `found` in front of the names that `rest` holds.
pub open spec fn found_before(found: Names, rest: Result<Names, IoFailureView>) -> Result<
    Names,
    IoFailureView,
> {
    match rest {
        Ok(names) => Ok(found + names),
        Err(failure) => Err(failure),
    }
}

/// One step of gathering names: a name that is text joins those found, one
/// that is not is the failure, and what is no name is passed over.
proof fn lemma_names_step(parts: Seq<Part>, at: int, found: Names)
    requires
        0 <= at <= parts.len(),
    ensures
        at == parts.len() ==> found_before(found, names_of(parts, at)) == Ok::<
            Names,
            IoFailureView,
        >(found),
        at < parts.len() ==> found_before(found, names_of(parts, at)) == (match parts[at] {
            Part::Normal(name) => if valid_utf8(name) {
                found_before(found.push(decode_utf8(name)), names_of(parts, at + 1))
            } else {
                Err(not_text())
            },
            _ => found_before(found, names_of(parts, at + 1)),
        }),
{
    if at == parts.len() {
        assert(found + Seq::<Seq<char>>::empty() =~= found);
    } else {
        match parts[at] {
            Part::Normal(name) => {
                if valid_utf8(name) {
                    match names_of(parts, at + 1) {
                        Ok(rest) => {
                            assert(found + (seq![decode_utf8(name)] + rest) =~= found.push(
                                decode_utf8(name),
                            ) + rest);
                        },
                        Err(_) => {},
                    }
                }
            },
            _ => {},
        }
    }
}

/// The names of the module that `file` holds, seen from `root`.
fn module_names(file: &FsPath, root: &FsPath) -> (r: Result<Vec<String>, IoFailure>)
    ensures
        match module_of(file@, root@) {
            Ok(module) => r matches Ok(names) && names@.len() == module.len() && forall|i: int|
                0 <= i < module.len() ==> names@[i]@ == module[i],
            Err(failure) => r matches Err(error) && error@ == failure,
        },
{
    let bare = file.without_extension();
    if !bare.starts_with(root) {
        return Err(IoFailure::new(IoFailureKind::Other, "StripPrefixError: prefix not found"));
    }
    let mut at = root.components.len();
    let mut names: Vec<String> = Vec::new();
    let ghost mut found: Names = Seq::empty();
    proof {
        match names_of(bare@, at as int) {
            Ok(all) => {
                assert(found + all =~= all);
            },
            Err(_) => {},
        }
    }
    while at < bare.components.len()
        invariant
            root.components@.len() <= at <= bare.components@.len(),
            bare@.len() == bare.components@.len(),
            crate::fs::starts_with(bare@, root@),
            bare@ == without_extension(file@),
            module_of(file@, root@) == found_before(found, names_of(bare@, at as int)),
            names@.len() == found.len(),
            forall|i: int| 0 <= i < found.len() ==> names@[i]@ == found[i],
        decreases bare.components@.len() - at,
    {
        proof {
            lemma_names_step(bare@, at as int, found);
        }
        match &bare.components[at] {
            FsComponent::Normal(name) => {
                match text_of(name.as_slice()) {
                    Some(text) => {
                        proof {
                            encode_utf8_decode_utf8(text@);
                            found = found.push(text@);
                        }
                        names.push(text.to_string());
                    },
                    None => {
                        return Err(IoFailure::new(IoFailureKind::InvalidData, "path was not utf8"));
                    },
                }
            },
            _ => {},
        }
        at += 1;
    }
    proof {
        lemma_names_step(bare@, at as int, found);
    }
    Ok(names)
}

impl SourceStore {
    /// A store without roots and without modules.
    pub fn new() -> (store: SourceStore)
        ensures
            store@.roots.len() == 0,
            store@.modules == Map::<Names, Seq<Part>>::empty(),
    {
        SourceStore { roots: Vec::new(), modules: Vec::new() }
    }

    /// Makes `file` the file of `module`, whatever file the module had.
    pub fn register_module(&mut self, module: Path, file: FsPath)
        ensures
            final(self)@ == old(self)@.with_module(module@, file@),
    {
        let ghost before = self.modules@;
        self.modules.push((module, file));
        assert(self.modules@.drop_last() =~= before);
        assert(self@.roots =~= old(self)@.roots);
    }

    /// Whether `path` was registered as a root.
    pub fn is_root(&self, path: &FsPath) -> (r: bool)
        ensures
            r == self@.roots.contains(path@),
    {
        let mut i: usize = 0;
        while i < self.roots.len()
            invariant
                i <= self.roots@.len(),
                self@.roots.len() == self.roots@.len(),
                forall|k: int| 0 <= k < i ==> self@.roots[k] != path@,
            decreases self.roots@.len() - i,
        {
            if self.roots[i] == *path {
                assert(self@.roots[i as int] == path@);
                return true;
            }
            i += 1;
        }
        false
    }

    /// Registers `path` as a root and walks `contents`, which is what was
    /// found in it. A root that is known is left alone. Every directory
    /// that the walk meets becomes a root of its own, so a module is named
    /// as seen from the directory that holds its file.
    pub fn discover_tree(&mut self, path: &FsPath, contents: &Listing) -> (r: Result<
        (),
        IoFailure,
    >)
        ensures
            final(self)@ == discovered(old(self)@, path@, *contents).0,
            match discovered(old(self)@, path@, *contents).1 {
                Some(failure) => r matches Err(error) && error@ == failure,
                None => r is Ok,
            },
        decreases contents, 2nat,
    {
        if self.is_root(path) {
            return Ok(());
        }
        let root_id = self.roots.len();
        let ghost before = self@;
        self.roots.push(path.clone());
        assert(self@.roots =~= before.roots.push(path@));
        self.discover_tree_inner(contents, root_id)
    }

    /// Walks a directory whose root is root `root_id`.
    fn discover_tree_inner(&mut self, contents: &Listing, root_id: usize) -> (r: Result<
        (),
        IoFailure,
    >)
        requires
            root_id < old(self)@.roots.len(),
        ensures
            final(self)@ == walked(old(self)@, *contents, root_id as int).0,
            match walked(old(self)@, *contents, root_id as int).1 {
                Some(failure) => r matches Err(error) && error@ == failure,
                None => r is Ok,
            },
        decreases contents, 1nat,
    {
        match contents {
            Listing::Failed(failure) => Err(failure.clone()),
            Listing::Entries(entries) => {
                let mut i: usize = 0;
                while i < entries.len()
                    invariant
                        i <= entries@.len(),
                        root_id < self@.roots.len(),
                        *contents == Listing::Entries(*entries),
                        walked_from(self@, *entries, i as int, root_id as int) == walked_from(
                            old(self)@,
                            *entries,
                            0,
                            root_id as int,
                        ),
                    decreases entries@.len() - i,
                {
                    let ghost before = self@;
                    proof {
                        let stepped = entered(before, entries[i as int], root_id as int);
                        assert(walked_from(before, *entries, i as int, root_id as int) == (
                            if stepped.1 is Some {
                                stepped
                            } else {
                                walked_from(stepped.0, *entries, i + 1, root_id as int)
                            }));
                    }
                    match &entries[i] {
                        DirEntry::Dir { path, contents: inner } => {
                            proof {
                                lemma_roots_grow(before, path@, *inner);
                            }
                            self.discover_tree(path, inner)?;
                        },
                        DirEntry::File { path } => {
                            assert(self@.roots[root_id as int] == self.roots@[root_id as int]@);
                            let names = module_names(path, &self.roots[root_id])?;
                            let mut parts: Vec<&str> = Vec::new();
                            let mut k: usize = 0;
                            while k < names.len()
                                invariant
                                    k <= names@.len(),
                                    parts@.len() == k,
                                    forall|j: int| 0 <= j < k ==> parts@[j]@ == names@[j]@,
                                decreases names@.len() - k,
                            {
                                parts.push(names[k].as_str());
                                k += 1;
                            }
                            let module = Path::from(parts.as_slice());
                            assert(module@ =~= module_of(
                                path@,
                                before.roots[root_id as int],
                            )->Ok_0);
                            self.register_module(module, path.clone());
                        },
                        DirEntry::Other => {},
                        DirEntry::Failed { failure } => {
                            return Err(failure.clone());
                        },
                    }
                    i += 1;
                }
                Ok(())
            },
        }
    }

    /// The file of `module`, if it is one.
    fn find(&self, module: &Path) -> (r: Option<&FsPath>)
        ensures
            match r {
                Some(file) => self@.modules.contains_key(module@) && file@
                    == self@.modules[module@],
                None => !self@.modules.contains_key(module@),
            },
    {
        let mut at = self.modules.len();
        while at > 0
            invariant
                at <= self.modules@.len(),
                forall|i: int| at <= i < self.modules@.len() ==> self.modules@[i].0@ != module@,
            decreases at,
        {
            at -= 1;
            if self.modules[at].0 == *module {
                proof {
                    lemma_modules_of(self.modules@, module@, at as int);
                }
                return Some(&self.modules[at].1);
            }
        }
        proof {
            lemma_modules_of(self.modules@, module@, -1);
        }
        None
    }

    /// The file that `path` refers to: the file of the module that `path`
    /// names, else of the nearest module that encloses it.
    pub fn identify_potential_source(&self, path: &Path) -> (r: Option<&FsPath>)
        ensures
            match resolve(self@.modules, path@) {
                Some(file) => r matches Some(found) && found@ == file,
                None => r is None,
            },
    {
        let mut slice = path.clone();
        while slice.len() > 0
            invariant
                resolve(self@.modules, slice@) == resolve(self@.modules, path@),
            decreases slice@.len(),
        {
            let found = self.find(&slice);
            if found.is_some() {
                return found;
            }
            slice.parent();
        }
        None
    }
}

/// Registering a root leaves the roots that were there where they were.
pub proof fn lemma_roots_grow(store: StoreView, path: Seq<Part>, contents: Listing)
    ensures
        store.roots.len() <= discovered(store, path, contents).0.roots.len(),
        forall|i: int|
            0 <= i < store.roots.len() ==> discovered(store, path, contents).0.roots[i]
                == store.roots[i],
    decreases contents, 2nat,
{
    if !store.roots.contains(path) {
        let grown = store.with_root(path);
        lemma_roots_grow_walked(grown, contents, store.roots.len() as int);
        assert forall|i: int| 0 <= i < store.roots.len() implies discovered(
            store,
            path,
            contents,
        ).0.roots[i] == store.roots[i] by {
            assert(grown.roots[i] == store.roots[i]);
        }
    }
}

proof fn lemma_roots_grow_walked(store: StoreView, contents: Listing, root: int)
    ensures
        store.roots.len() <= walked(store, contents, root).0.roots.len(),
        forall|i: int|
            0 <= i < store.roots.len() ==> walked(store, contents, root).0.roots[i]
                == store.roots[i],
    decreases contents, 1nat,
{
    match contents {
        Listing::Failed(_) => {},
        Listing::Entries(entries) => {
            lemma_roots_grow_from(store, entries, 0, root);
        },
    }
}

proof fn lemma_roots_grow_from(store: StoreView, entries: Vec<DirEntry>, from: int, root: int)
    ensures
        store.roots.len() <= walked_from(store, entries, from, root).0.roots.len(),
        forall|i: int|
            0 <= i < store.roots.len() ==> walked_from(store, entries, from, root).0.roots[i]
                == store.roots[i],
    decreases entries, entries.len() - from,
{
    if 0 <= from < entries.len() {
        let (next, failure) = entered(store, entries[from], root);
        match entries[from] {
            DirEntry::Dir { path, contents } => {
                lemma_roots_grow(store, path@, contents);
            },
            _ => {},
        }
        if failure is None {
            lemma_roots_grow_from(next, entries, from + 1, root);
        }
    }
}

/// The parsed modules of a session, each under the path of its file.
pub struct ParseCache {
    entries: Vec<(FsPath, Arc<syntax::Module>)>,
}

/// The map that a list of files with their modules stands for, the first
/// entry of a file being the one that counts.
pub open spec fn cache_of(entries: Seq<(FsPath, Arc<syntax::Module>)>) -> Map<
    Seq<Part>,
    Arc<syntax::Module>,
>
    decreases entries.len(),
{
    if entries.len() == 0 {
        Map::empty()
    } else {
        let before = cache_of(entries.drop_last());
        if before.contains_key(entries.last().0@) {
            before
        } else {
            before.insert(entries.last().0@, entries.last().1)
        }
    }
}

/// The first entry of a file decides its module.
proof fn lemma_cache_of(entries: Seq<(FsPath, Arc<syntax::Module>)>, file: Seq<Part>, at: int)
    requires
        0 <= at <= entries.len(),
        at < entries.len() ==> entries[at].0@ == file,
        forall|i: int| 0 <= i < at ==> entries[i].0@ != file,
    ensures
        at < entries.len() ==> cache_of(entries).contains_key(file) && cache_of(entries)[file]
            == entries[at].1,
        at == entries.len() ==> !cache_of(entries).contains_key(file),
    decreases entries.len(),
{
    if entries.len() > 0 {
        if at < entries.len() - 1 {
            lemma_cache_of(entries.drop_last(), file, at);
        } else {
            lemma_cache_of(entries.drop_last(), file, entries.len() - 1);
        }
    }
}

/// What publishing `module` for `file` makes of a cache, and the module
/// that stands for the file from then on: the one that was there, else the
/// new one.
pub open spec fn published(
    cache: Map<Seq<Part>, Arc<syntax::Module>>,
    file: Seq<Part>,
    module: Arc<syntax::Module>,
) -> (Map<Seq<Part>, Arc<syntax::Module>>, Arc<syntax::Module>) {
    if cache.contains_key(file) {
        (cache, cache[file])
    } else {
        (cache.insert(file, module), module)
    }
}

/// Of two modules published for one file, the first stays: the second
/// publication changes nothing and hands out the module of the first.
pub proof fn lemma_published_once(
    cache: Map<Seq<Part>, Arc<syntax::Module>>,
    file: Seq<Part>,
    first: Arc<syntax::Module>,
    second: Arc<syntax::Module>,
)
    ensures
        published(published(cache, file, first).0, file, second) == published(
            cache,
            file,
            first,
        ),
        published(cache, file, first).0.contains_key(file),
        published(cache, file, first).0[file] == published(cache, file, first).1,
{
}

impl View for ParseCache {
    type V = Map<Seq<Part>, Arc<syntax::Module>>;

    closed spec fn view(&self) -> Map<Seq<Part>, Arc<syntax::Module>> {
        cache_of(self.entries@)
    }
}

impl ParseCache {
    /// An empty cache.
    pub fn new() -> (cache: ParseCache)
        ensures
            cache@ == Map::<Seq<Part>, Arc<syntax::Module>>::empty(),
    {
        ParseCache { entries: Vec::new() }
    }

    /// Publishes `module` for `file` unless the file has a module, and
    /// hands out the module that the file has from now on.
    pub fn insert_if_absent(&mut self, file: &FsPath, module: Arc<syntax::Module>) -> (handle: Arc<
        syntax::Module,
    >)
        ensures
            (final(self)@, handle) == published(old(self)@, file@, module),
    {
        let mut at: usize = 0;
        while at < self.entries.len()
            invariant
                at <= self.entries@.len(),
                forall|i: int| 0 <= i < at ==> self.entries@[i].0@ != file@,
            decreases self.entries@.len() - at,
        {
            if self.entries[at].0 == *file {
                proof {
                    lemma_cache_of(self.entries@, file@, at as int);
                }
                return self.entries[at].1.clone();
            }
            at += 1;
        }
        proof {
            lemma_cache_of(self.entries@, file@, at as int);
        }
        let ghost before = self.entries@;
        self.entries.push((file.clone(), module.clone()));
        assert(self.entries@.drop_last() =~= before);
        module
    }
}

/// Why the cache of a session could not be written.
#[derive(Debug, Clone, Copy, PartialEq, Eq, Structural)]
pub enum LockFailure {
    /// Someone else holds the lock.
    WouldBlock,
    /// A holder of the lock panicked.
    Poisoned,
}

/// The lock of the standard library, `std::sync::RwLock`. What stands
/// behind a lock is not known to the proofs.
#[verifier::external_type_specification]
#[verifier::external_body]
#[verifier::reject_recursive_types(T)]
pub struct ExRwLock<T: ?Sized>(RwLock<T>);

/// The right to write what stands behind a lock,
/// `std::sync::RwLockWriteGuard`.
#[verifier::external_type_specification]
#[verifier::external_body]
#[verifier::reject_recursive_types(T)]
pub struct ExRwLockWriteGuard<'a, T: ?Sized + 'a>(RwLockWriteGuard<'a, T>);

/// Puts a cache behind a lock.
///
/// This is `RwLock::new`. Nothing is claimed of the lock.
#[verifier::external_body]
fn lock_new(cache: ParseCache) -> RwLock<ParseCache> {
    RwLock::new(cache)
}

/// Asks for the right to write the cache, without waiting for it.
///
/// This is `RwLock::try_write`, which gives a guard, or says that the lock
/// is held, or that a holder panicked. Which of them comes is not known
/// beforehand.
#[verifier::external_body]
fn lock_try_write<'a>(lock: &'a RwLock<ParseCache>) -> Result<
    RwLockWriteGuard<'a, ParseCache>,
    LockFailure,
> {
    match lock.try_write() {
        Ok(guard) => Ok(guard),
        Err(TryLockError::WouldBlock) => Err(LockFailure::WouldBlock),
        Err(TryLockError::Poisoned(_)) => Err(LockFailure::Poisoned),
    }
}

/// The cache that a guard gives the right to write.
///
/// This is the `DerefMut` of `RwLockWriteGuard`. Nothing is claimed of what
/// the cache holds: others may have written it.
#[verifier::external_body]
fn lock_target<'a, 'b>(guard: &'a mut RwLockWriteGuard<'b, ParseCache>) -> &'a mut ParseCache {
    &mut **guard
}

/// The name of the cache in the error that says that it is in use.
pub open spec fn cache_name() -> Seq<char> {
    "session.parsed"@
}

/// The message of the error for a lock whose holder panicked.
pub open spec fn poisoned_message() -> Seq<char> {
    "a parsing thread panicked"@
}

/// How far the source of a module gets.
pub enum Parsing {
    /// The file could not be read.
    Unread(IoFailureView),
    /// What was read is no module.
    Malformed(Failure),
    /// The source was read and parsed.
    Parsed,
}

/// How far a source gets, given what reading its file gave.
pub open spec fn parsed_source(contents: Result<Seq<char>, IoFailureView>) -> Parsing {
    match contents {
        Err(failure) => Parsing::Unread(failure),
        Ok(text) => match grammar::module(start_of(text)) {
            Err(failure) => Parsing::Malformed(failure),
            Ok(_) => Parsing::Parsed,
        },
    }
}

/// What reading a file gave: the text, or what the failure stands for.
pub open spec fn read_text(contents: Result<&str, IoFailure>) -> Result<Seq<char>, IoFailureView> {
    match contents {
        Ok(text) => Ok(text@),
        Err(failure) => Err(failure@),
    }
}

/// What a reference leads to.
pub enum Lookup {
    /// The file of the module that the reference names or that encloses
    /// what it names.
    Found(Seq<Part>),
    /// The reference is no `use` item.
    Malformed(Failure),
    /// No module is known under any beginning of the path.
    Unknown,
}

/// What the reference `reference`, the text of a `use` item, leads to.
pub open spec fn lookup(store: StoreView, reference: Seq<char>) -> Lookup {
    match grammar::use_item(start_of(reference)) {
        Err(failure) => Lookup::Malformed(failure),
        Ok((_, names)) => match resolve(store.modules, names) {
            Some(file) => Lookup::Found(file),
            None => Lookup::Unknown,
        },
    }
}

/// The index of the first reference from `from` on that leads to no file.
pub open spec fn first_unresolved(store: StoreView, references: Seq<Seq<char>>, from: int)
    -> Option<int>
    decreases references.len() - from,
{
    if from < 0 || from >= references.len() {
        None
    } else if lookup(store, references[from]) is Found {
        first_unresolved(store, references, from + 1)
    } else {
        Some(from)
    }
}

/// `items` without the repetitions: each item where it comes first.
pub open spec fn unique<A>(items: Seq<A>) -> Seq<A>
    decreases items.len(),
{
    if items.len() == 0 {
        Seq::empty()
    } else {
        let before = unique(items.drop_last());
        if before.contains(items.last()) {
            before
        } else {
            before.push(items.last())
        }
    }
}

/// What references lead to: the files, each once, and the references, each
/// once.
pub struct References<'a> {
    explicit_modules: Vec<&'a FsPath>,
    items: Vec<&'a str>,
}

impl<'a> References<'a> {
    /// The files that the references lead to, each once, in the order in
    /// which they were first met.
    pub closed spec fn files(&self) -> Seq<Seq<Part>> {
        Seq::new(self.explicit_modules@.len(), |i: int| self.explicit_modules@[i]@)
    }

    /// The references, each once, in the order in which they were first
    /// met.
    pub closed spec fn texts(&self) -> Seq<Seq<char>> {
        Seq::new(self.items@.len(), |i: int| self.items@[i]@)
    }

    /// The files that the references lead to.
    pub fn modules(&self) -> (files: &[&'a FsPath])
        ensures
            files@.len() == self.files().len(),
            forall|i: int| 0 <= i < files@.len() ==> files@[i]@ == self.files()[i],
    {
        self.explicit_modules.as_slice()
    }

    /// The references.
    pub fn items(&self) -> (texts: &[&'a str])
        ensures
            texts@.len() == self.texts().len(),
            forall|i: int| 0 <= i < texts@.len() ==> texts@[i]@ == self.texts()[i],
    {
        self.items.as_slice()
    }
}

/// The files that `references` lead to, in their order, where each leads
/// to one.
pub open spec fn files_of(store: StoreView, references: Seq<Seq<char>>) -> Seq<Seq<Part>> {
    Seq::new(references.len(), |i: int| lookup(store, references[i])->Found_0)
}

/// The texts of references.
pub open spec fn texts_of(references: Seq<&str>) -> Seq<Seq<char>> {
    Seq::new(references.len(), |i: int| references[i]@)
}

/// A compiler session: the module tree, and the modules parsed so far.
/// The modules stand behind a lock, so that a session can be shared.
pub struct Session {
    source_store: SourceStore,
    parsed: RwLock<ParseCache>,
}

impl Session {
    /// The module tree of the session.
    pub closed spec fn store(&self) -> StoreView {
        self.source_store@
    }

    /// A session that knows no root and no module.
    pub fn new() -> (session: Session)
        ensures
            session.store().roots.len() == 0,
            session.store().modules == Map::<Names, Seq<Part>>::empty(),
    {
        Session { source_store: SourceStore::new(), parsed: lock_new(ParseCache::new()) }
    }

    /// Registers an input with what was found in it.
    pub fn register_input(&mut self, input: &config::Input, contents: &Listing) -> (r: Result<
        (),
        IoFailure,
    >)
        ensures
            match *input {
                config::Input::Path(path) => {
                    &&& final(self).store() == discovered(old(self).store(), path@, *contents).0
                    &&& match discovered(old(self).store(), path@, *contents).1 {
                        Some(failure) => r matches Err(error) && error@ == failure,
                        None => r is Ok,
                    }
                },
            },
    {
        match input {
            config::Input::Path(path) => {
                self.source_store.discover_tree(path, contents)?;
            },
        }
        Ok(())
    }

    /// Resolves references, each the text of a `use` item, to the files of
    /// their modules. The first reference that leads to no file fails them
    /// all: with the error of the parser if it is no `use` item, with an
    /// include error that names it if no module is known for it.
    pub fn parse_references<'a>(&'a self, includes: &[&'a str]) -> (r: Result<
        References<'a>,
        CompilerError,
    >)
        ensures
            match first_unresolved(self.store(), texts_of(includes@), 0) {
                Some(at) => r matches Err(error) && match lookup(
                    self.store(),
                    includes@[at]@,
                ) {
                    Lookup::Malformed(failure) => error.reports(failure),
                    _ => error matches CompilerError::Input(InputError::Include(name)) && name@
                        == includes@[at]@,
                },
                None => r matches Ok(found) && found.files() == unique(
                    files_of(self.store(), texts_of(includes@)),
                ) && found.texts() == unique(texts_of(includes@)),
            },
    {
        let mut references = References { explicit_modules: Vec::new(), items: Vec::new() };
        let ghost texts = texts_of(includes@);
        let mut i: usize = 0;
        while i < includes.len()
            invariant
                i <= includes@.len(),
                texts == texts_of(includes@),
                first_unresolved(self.store(), texts, 0) == first_unresolved(
                    self.store(),
                    texts,
                    i as int,
                ),
                references.files() == unique(files_of(self.store(), texts).take(i as int)),
                references.texts() == unique(texts.take(i as int)),
            decreases includes@.len() - i,
        {
            let item: &'a str = includes[i];
            assert(texts[i as int] == item@);
            let path = parse_path(item)?;
            match self.source_store.identify_potential_source(&path) {
                Some(file) => {
                    proof {
                        assert(texts.take(i + 1).drop_last() =~= texts.take(i as int));
                        assert(files_of(self.store(), texts).take(i + 1).drop_last() =~= files_of(
                            self.store(),
                            texts,
                        ).take(i as int));
                    }
                    push_text(&mut references.items, item);
                    push_file(&mut references.explicit_modules, file);
                },
                None => {
                    return Err(CompilerError::include_error(item));
                },
            }
            i += 1;
        }
        proof {
            assert(texts.take(i as int) =~= texts);
            assert(files_of(self.store(), texts).take(i as int) =~= files_of(self.store(), texts));
        }
        Ok(references)
    }

    /// Parses the source of the module in the file `p` and publishes the
    /// module for the file, unless the file has one. `contents` is what
    /// reading the file gave.
    ///
    /// A failure to read and a failure to parse are reported as such.
    /// After that the outcome depends on the lock of the cache and on what
    /// others have published: see `publish`.
    pub fn parse_module(&self, p: &FsPath, contents: Result<&str, IoFailure>) -> (r: Result<
        Arc<syntax::Module>,
        CompilerError,
    >)
        ensures
            match parsed_source(read_text(contents)) {
                Parsing::Unread(failure) => r matches Err(
                    CompilerError::Input(InputError::Io { source }),
                ) && source@ == failure,
                Parsing::Malformed(failure) => r matches Err(error) && error.reports(failure),
                Parsing::Parsed => r matches Err(error) ==> is_busy(error) || is_poisoned(error),
            },
    {
        let text = match contents {
            Ok(text) => text,
            Err(failure) => {
                return Err(CompilerError::from_io(failure));
            },
        };
        let module = Arc::new(parse_module(text)?);
        match lock_try_write(&self.parsed) {
            Ok(guard) => {
                let mut guard = guard;
                Session::publish(Ok(lock_target(&mut guard)), p, module)
            },
            Err(failure) => Session::publish(Err(failure), p, module),
        }
    }

    /// Publishes a parsed module for its file through what asking for the
    /// lock of the cache gave. With the cache in hand the module is
    /// published unless the file has one, and the module of the file is
    /// handed out. A lock that is held gives the error that the cache is in
    /// use, and a lock whose holder panicked gives an internal error of the
    /// parsing stage.
    pub fn publish(
        cache: Result<&mut ParseCache, LockFailure>,
        file: &FsPath,
        module: Arc<syntax::Module>,
    ) -> (r: Result<Arc<syntax::Module>, CompilerError>)
        ensures
            match cache {
                Ok(cache) => r matches Ok(handle) && (final(cache)@, handle) == published(
                    cache@,
                    file@,
                    module,
                ),
                Err(LockFailure::WouldBlock) => r matches Err(error) && is_busy(error),
                Err(LockFailure::Poisoned) => r matches Err(error) && is_poisoned(error),
            },
    {
        match cache {
            Ok(cache) => Ok(cache.insert_if_absent(file, module)),
            Err(LockFailure::WouldBlock) => Err(
                CompilerError::resource_unavailable("session.parsed"),
            ),
            Err(LockFailure::Poisoned) => Err(
                CompilerError::ice("a parsing thread panicked".to_string(), CompilerStage::Parsing),
            ),
        }
    }

    /// Lowers the functions of the session. There is nothing to lower yet.
    pub fn lower_functions(&self) {
    }

    /// The errors that the session has gathered: none, as it gathers none.
    pub fn errors(&self) -> (r: Result<(), CompilerError>)
        ensures
            r is Ok,
    {
        Ok(())
    }
}

/// True for the error that says that the cache of parsed modules is in use.
pub open spec fn is_busy(error: CompilerError) -> bool {
    error matches CompilerError::WouldBlock(name) && name@ == cache_name()
}

/// True for the internal error of a lock whose holder panicked.
pub open spec fn is_poisoned(error: CompilerError) -> bool {
    error matches CompilerError::Internal(internal) && internal.is_ice(
        poisoned_message(),
        CompilerStage::Parsing,
    )
}

/// Adds a text to a list unless the list holds it.
fn push_text<'a>(items: &mut Vec<&'a str>, item: &'a str)
    ensures
        Seq::new(final(items)@.len(), |i: int| final(items)@[i]@) == (if Seq::new(
            old(items)@.len(),
            |i: int| old(items)@[i]@,
        ).contains(item@) {
            Seq::new(old(items)@.len(), |i: int| old(items)@[i]@)
        } else {
            Seq::new(old(items)@.len(), |i: int| old(items)@[i]@).push(item@)
        }),
{
    let ghost before = Seq::new(items@.len(), |i: int| items@[i]@);
    let mut at: usize = 0;
    while at < items.len()
        invariant
            at <= items@.len(),
            before == Seq::new(items@.len(), |i: int| items@[i]@),
            forall|i: int| 0 <= i < at ==> before[i] != item@,
        decreases items@.len() - at,
    {
        if same_text(items[at], item) {
            assert(before[at as int] == item@);
            return ;
        }
        at += 1;
    }
    items.push(item);
    assert(Seq::new(items@.len(), |i: int| items@[i]@) =~= before.push(item@));
}

/// Adds a file to a list unless the list holds it.
fn push_file<'a>(files: &mut Vec<&'a FsPath>, file: &'a FsPath)
    ensures
        Seq::new(final(files)@.len(), |i: int| final(files)@[i]@) == (if Seq::new(
            old(files)@.len(),
            |i: int| old(files)@[i]@,
        ).contains(file@) {
            Seq::new(old(files)@.len(), |i: int| old(files)@[i]@)
        } else {
            Seq::new(old(files)@.len(), |i: int| old(files)@[i]@).push(file@)
        }),
{
    let ghost before = Seq::new(files@.len(), |i: int| files@[i]@);
    let mut at: usize = 0;
    while at < files.len()
        invariant
            at <= files@.len(),
            before == Seq::new(files@.len(), |i: int| files@[i]@),
            forall|i: int| 0 <= i < at ==> before[i] != file@,
        decreases files@.len() - at,
    {
        if *files[at] == *file {
            assert(before[at as int] == file@);
            return ;
        }
        at += 1;
    }
    files.push(file);
    assert(Seq::new(files@.len(), |i: int| files@[i]@) =~= before.push(file@));
}

} // verus!
