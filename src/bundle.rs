//! Bundles: files keyed by module path under a common prefix, and the
//! mapping between paths and archive entry names.
use crate::attr::types::{lemma_lines_push, lines_view};
use crate::file::File;
use indexmap::IndexMap;
use vstd::prelude::*;
use vstd::string::*;

verus! {

/// A module path: a sequence of name segments.
#[derive(Clone, Debug, PartialEq, Eq, Hash)]
pub struct Path(pub Vec<String>);

impl View for Path {
    type V = Seq<Seq<char>>;

    open spec fn view(&self) -> Seq<Seq<char>> {
        lines_view(self.0@)
    }
}

/// Whether `p` begins with the segments of `prefix`.
pub open spec fn has_prefix(p: Seq<Seq<char>>, prefix: Seq<Seq<char>>) -> bool {
    prefix.len() <= p.len() && p.subrange(0, prefix.len() as int) == prefix
}

/// The extension that marks an archive entry as a metadata file.
pub open spec fn extension() -> Seq<char> {
    seq!['.', 'i', 'm', 't']
}

/// The separator between path segments in an archive entry name.
pub const SEPARATOR: char = '/';

/// The segments joined by the separator.
pub open spec fn join(p: Seq<Seq<char>>) -> Seq<char>
    decreases p.len(),
{
    if p.len() == 0 {
        Seq::empty()
    } else if p.len() == 1 {
        p[0]
    } else {
        join(p.drop_last()) + seq![SEPARATOR] + p.last()
    }
}

/// The module-qualified text of a path: its segments joined by `::`.
pub open spec fn module_text(p: Seq<Seq<char>>) -> Seq<char>
    decreases p.len(),
{
    if p.len() == 0 {
        Seq::empty()
    } else if p.len() == 1 {
        p[0]
    } else {
        module_text(p.drop_last()) + seq![':', ':'] + p.last()
    }
}

/// The archive entry name of a path: its segments joined by the separator,
/// then the extension.
pub open spec fn entry_name_of(p: Seq<Seq<char>>) -> Seq<char> {
    join(p) + extension()
}

/// Whether no segment holds the separator.
pub open spec fn plain_segments(p: Seq<Seq<char>>) -> bool {
    forall|i: int, j: int| 0 <= i < p.len() && 0 <= j < p[i].len() ==> #[trigger] p[i][j] != SEPARATOR
}

/// Whether `s` ends with the extension.
pub open spec fn has_extension(s: Seq<char>) -> bool {
    s.len() >= 4 && s.subrange(s.len() - 4, s.len() as int) == extension()
}

impl Path {
    /// Whether this path begins with the segments of `other`.
    pub fn starts_with(&self, other: &Path) -> (r: bool)
        ensures
            r == has_prefix(self@, other@),
    {
        if self.0.len() < other.0.len() {
            return false;
        }
        let l = other.0.len();
        let mut i: usize = 0;
        while i < l
            invariant
                l == other@.len(),
                l <= self@.len(),
                i <= l,
                self@.subrange(0, i as int) == other@.subrange(0, i as int),
            decreases l - i,
        {
            if self.0[i] != other.0[i] {
                assert(self@.subrange(0, l as int)[i as int] != other@[i as int]);
                return false;
            }
            assert(self@.subrange(0, i + 1) =~= self@.subrange(0, i as int).push(self@[i as int]));
            assert(other@.subrange(0, i + 1) =~= other@.subrange(0, i as int).push(other@[i as int]));
            i = i + 1;
        }
        assert(other@.subrange(0, l as int) =~= other@);
        true
    }

    /// The segments of this path followed by those of `other`.
    pub fn concat(&self, other: &Path) -> (r: Path)
        ensures
            r@ == self@ + other@,
    {
        let mut v: Vec<String> = Vec::new();
        let mut i: usize = 0;
        while i < self.0.len()
            invariant
                i <= self@.len(),
                lines_view(v@) == self@.subrange(0, i as int),
            decreases self@.len() - i,
        {
            proof {
                lemma_lines_push(v@, self.0@[i as int]);
            }
            v.push(self.0[i].clone());
            assert(lines_view(v@) =~= self@.subrange(0, i + 1));
            i = i + 1;
        }
        let mut j: usize = 0;
        while j < other.0.len()
            invariant
                i == self@.len(),
                j <= other@.len(),
                lines_view(v@) == self@ + other@.subrange(0, j as int),
            decreases other@.len() - j,
        {
            proof {
                lemma_lines_push(v@, other.0@[j as int]);
            }
            v.push(other.0[j].clone());
            assert(lines_view(v@) =~= self@ + other@.subrange(0, j + 1));
            j = j + 1;
        }
        assert(self@.subrange(0, i as int) =~= self@);
        assert(other@.subrange(0, j as int) =~= other@);
        Path(v)
    }

    /// The path as module-qualified text, its segments joined by `::`.
    pub fn display(&self) -> (r: String)
        ensures
            r@ == module_text(self@),
    {
        let mut s = String::new();
        let mut i: usize = 0;
        while i < self.0.len()
            invariant
                i <= self@.len(),
                s@ == module_text(self@.take(i as int)),
            decreases self@.len() - i,
        {
            proof {
                let t = self@.take(i + 1);
                assert(t.drop_last() =~= self@.take(i as int));
                assert(t.last() == self@[i as int]);
                reveal_strlit("::");
            }
            if i > 0 {
                s.append("::");
            }
            s.append(self.0[i].as_str());
            proof {
                if i == 0 {
                    assert(self@.take(0) =~= Seq::<Seq<char>>::empty());
                }
            }
            assert(s@ =~= module_text(self@.take(i + 1)));
            i = i + 1;
        }
        assert(self@.take(i as int) =~= self@);
        s
    }

    /// The segments after the first `n`.
    pub fn skip(&self, n: usize) -> (r: Path)
        requires
            n <= self@.len(),
        ensures
            r@ == self@.subrange(n as int, self@.len() as int),
    {
        let mut v: Vec<String> = Vec::new();
        let mut i: usize = n;
        while i < self.0.len()
            invariant
                n <= i <= self@.len(),
                lines_view(v@) == self@.subrange(n as int, i as int),
            decreases self@.len() - i,
        {
            proof {
                lemma_lines_push(v@, self.0@[i as int]);
            }
            v.push(self.0[i].clone());
            assert(lines_view(v@) =~= self@.subrange(n as int, i + 1));
            i = i + 1;
        }
        Path(v)
    }
}

/// The part of a path's name that its segments so far take, the separator
/// after them included.
spec fn joined_prefix(p: Seq<Seq<char>>) -> Seq<char> {
    if p.len() == 0 {
        Seq::empty()
    } else {
        join(p) + seq![SEPARATOR]
    }
}

proof fn lemma_join_push(p: Seq<Seq<char>>, x: Seq<char>)
    ensures
        join(p.push(x)) == joined_prefix(p) + x,
{
    assert(p.push(x).drop_last() =~= p);
    if p.len() == 0 {
        assert(joined_prefix(p) + x =~= x);
    }
}

/// The archive entry name of a path: its segments joined by `/`, then
/// `.imt`.
pub fn entry_name(path: &Path) -> (r: String)
    ensures
        r@ == entry_name_of(path@),
{
    let mut s = String::new();
    let mut i: usize = 0;
    while i < path.0.len()
        invariant
            i <= path@.len(),
            s@ == join(path@.take(i as int)),
        decreases path@.len() - i,
    {
        proof {
            lemma_join_push(path@.take(i as int), path@[i as int]);
            assert(path@.take(i + 1) =~= path@.take(i as int).push(path@[i as int]));
            reveal_strlit("/");
        }
        if i > 0 {
            s.append("/");
        }
        s.append(path.0[i].as_str());
        assert(s@ =~= join(path@.take(i + 1)));
        i = i + 1;
    }
    proof {
        reveal_strlit(".imt");
        assert(path@.take(i as int) =~= path@);
    }
    s.append(".imt");
    assert(s@ =~= entry_name_of(path@));
    s
}

/// The path that an archive entry stands for: its name without `.imt`,
/// split at each `/`; an entry without that extension stands for none.
pub fn entry_path(name: &str) -> (r: Option<Path>)
    ensures
        r is Some <==> has_extension(name@),
        r matches Some(p) ==> entry_name_of(p@) == name@ && plain_segments(p@),
{
    let n = name.unicode_len();
    if n < 4 {
        return None;
    }
    let stem_len = n - 4;
    if !(name.get_char(stem_len) == '.' && name.get_char(stem_len + 1) == 'i' && name.get_char(
        stem_len + 2,
    ) == 'm' && name.get_char(stem_len + 3) == 't') {
        assert(!has_extension(name@)) by {
            if has_extension(name@) {
                let e = name@.subrange(n - 4, n as int);
                assert(e[0] == name@[stem_len as int]);
                assert(e[1] == name@[stem_len + 1]);
                assert(e[2] == name@[stem_len + 2]);
                assert(e[3] == name@[stem_len + 3]);
            }
        }
        return None;
    }
    assert(name@.subrange(n - 4, n as int) =~= extension());
    let ghost stem = name@.subrange(0, stem_len as int);
    let mut segs: Vec<String> = Vec::new();
    let mut start: usize = 0;
    let mut i: usize = 0;
    while i < stem_len
        invariant
            n == name@.len(),
            stem_len == n - 4,
            stem == name@.subrange(0, stem_len as int),
            start <= i <= stem_len,
            stem.subrange(0, start as int) == joined_prefix(lines_view(segs@)),
            plain_segments(lines_view(segs@)),
            forall|j: int| start <= j < i ==> stem[j] != SEPARATOR,
        decreases stem_len - i,
    {
        if name.get_char(i) == '/' {
            let seg = name.substring_char(start, i).to_owned();
            let ghost old_segs = lines_view(segs@);
            proof {
                lemma_lines_push(segs@, seg);
                lemma_join_push(old_segs, seg@);
                assert(seg@ =~= stem.subrange(start as int, i as int));
                assert(stem.subrange(0, i + 1) =~= stem.subrange(0, start as int) + seg@ + seq![
                    SEPARATOR,
                ]);
            }
            segs.push(seg);
            assert(plain_segments(lines_view(segs@))) by {
                assert forall|a: int, b: int|
                    0 <= a < lines_view(segs@).len() && 0 <= b < lines_view(segs@)[a].len()
                    implies #[trigger] lines_view(segs@)[a][b] != SEPARATOR by {
                    if a < old_segs.len() {
                        assert(lines_view(segs@)[a] == old_segs[a]);
                    } else {
                        assert(lines_view(segs@)[a] == seg@);
                        assert(seg@[b] == stem[start + b]);
                    }
                }
            }
            start = i + 1;
        }
        i = i + 1;
    }
    let last = name.substring_char(start, stem_len).to_owned();
    let ghost old_segs = lines_view(segs@);
    proof {
        lemma_lines_push(segs@, last);
        lemma_join_push(old_segs, last@);
        assert(last@ =~= stem.subrange(start as int, stem_len as int));
        assert(stem =~= stem.subrange(0, start as int) + last@);
    }
    segs.push(last);
    assert(plain_segments(lines_view(segs@))) by {
        assert forall|a: int, b: int|
            0 <= a < lines_view(segs@).len() && 0 <= b < lines_view(segs@)[a].len()
            implies #[trigger] lines_view(segs@)[a][b] != SEPARATOR by {
            if a < old_segs.len() {
                assert(lines_view(segs@)[a] == old_segs[a]);
            } else {
                assert(lines_view(segs@)[a] == last@);
                assert(last@[b] == stem[start + b]);
            }
        }
    }
    let p = Path(segs);
    assert(name@ =~= stem + extension());
    Some(p)
}

#[verifier::external_type_specification]
#[verifier::external_body]
#[verifier::reject_recursive_types(K)]
#[verifier::reject_recursive_types(V)]
#[verifier::reject_recursive_types(S)]
pub struct ExIndexMap<K, V, S>(IndexMap<K, V, S>);

/// The entries of a map of files, in insertion order: each key's segments
/// and its file.
pub uninterp spec fn map_entries(m: IndexMap<Path, File>) -> Seq<(Seq<Seq<char>>, File)>;

/// The entries after `key` is inserted with `file`: a key that is present
/// keeps its place and takes the new file, a new key goes last.
pub open spec fn insert_entry(
    e: Seq<(Seq<Seq<char>>, File)>,
    key: Seq<Seq<char>>,
    file: File,
) -> Seq<(Seq<Seq<char>>, File)> {
    if exists|i: int| 0 <= i < e.len() && #[trigger] e[i].0 == key {
        let i = choose|i: int| 0 <= i < e.len() && #[trigger] e[i].0 == key;
        e.update(i, (key, file))
    } else {
        e.push((key, file))
    }
}

/// Whether no key stands twice.
pub open spec fn keys_unique(e: Seq<(Seq<Seq<char>>, File)>) -> bool {
    forall|i: int, j: int| 0 <= i < j < e.len() ==> #[trigger] e[i].0 != #[trigger] e[j].0
}

/// Relies on `IndexMap::new`: a new map is empty.
#[verifier::external_body]
fn map_new() -> (r: IndexMap<Path, File>)
    ensures
        map_entries(r) == Seq::<(Seq<Seq<char>>, File)>::empty(),
{
    IndexMap::new()
}

/// Relies on `IndexMap::insert`: an equal key already present keeps its
/// place and takes the new value; otherwise the pair goes last. Keys are
/// equal when their segments are.
#[verifier::external_body]
fn map_insert(m: &mut IndexMap<Path, File>, key: Path, file: File)
    ensures
        map_entries(*final(m)) == insert_entry(map_entries(*old(m)), key@, file),
{
    m.insert(key, file);
}

/// Relies on `IndexMap::get`: the value stored under an equal key, if any.
#[verifier::external_body]
fn map_get<'a>(m: &'a IndexMap<Path, File>, key: &Path) -> (r: Option<&'a File>)
    ensures
        r is None <==> forall|i: int|
            0 <= i < map_entries(*m).len() ==> #[trigger] map_entries(*m)[i].0 != key@,
        r matches Some(f) ==> exists|i: int|
            0 <= i < map_entries(*m).len() && #[trigger] map_entries(*m)[i] == (key@, *f),
{
    m.get(key)
}

/// Relies on `IndexMap::get_index`: the entry at a position in insertion
/// order.
#[verifier::external_body]
fn map_get_index<'a>(m: &'a IndexMap<Path, File>, i: usize) -> (r: Option<(&'a Path, &'a File)>)
    ensures
        r is Some <==> i < map_entries(*m).len(),
        r matches Some((k, f)) ==> map_entries(*m)[i as int] == (k@, *f),
{
    m.get_index(i)
}

/// Relies on `IndexMap::len`: the number of entries.
#[verifier::external_body]
fn map_len(m: &IndexMap<Path, File>) -> (r: usize)
    ensures
        r == map_entries(*m).len(),
{
    m.len()
}

/// Files keyed by module path, every key beginning with the bundle's prefix,
/// in the order they were first added.
#[derive(Debug)]
pub struct Bundle {
    prefix: Path,
    files: IndexMap<Path, File>,
}

impl Bundle {
    /// The prefix that every key begins with.
    pub closed spec fn spec_prefix(&self) -> Seq<Seq<char>> {
        self.prefix@
    }

    /// The entries, in insertion order.
    pub closed spec fn entries(&self) -> Seq<(Seq<Seq<char>>, File)> {
        map_entries(self.files)
    }

    /// Every key begins with the prefix, and no key stands twice.
    pub open spec fn wf(&self) -> bool {
        &&& keys_unique(self.entries())
        &&& forall|i: int|
            0 <= i < self.entries().len() ==> has_prefix(
                #[trigger] self.entries()[i].0,
                self.spec_prefix(),
            )
    }

    /// An empty bundle whose keys will begin with `prefix`.
    pub fn create(prefix: Path) -> (r: Bundle)
        ensures
            r.wf(),
            r.spec_prefix() == prefix@,
            r.entries() == Seq::<(Seq<Seq<char>>, File)>::empty(),
    {
        Bundle { prefix, files: map_new() }
    }

    /// Stores `file` under the prefix followed by `path`.
    pub fn add_file(&mut self, path: Path, file: File)
        requires
            old(self).wf(),
        ensures
            final(self).wf(),
            final(self).spec_prefix() == old(self).spec_prefix(),
            final(self).entries() == insert_entry(
                old(self).entries(),
                old(self).spec_prefix() + path@,
                file,
            ),
    {
        let key = self.prefix.concat(&path);
        let ghost e = self.entries();
        let ghost k = key@;
        map_insert(&mut self.files, key, file);
        proof {
            let e2 = self.entries();
            assert(has_prefix(k, self.prefix@)) by {
                assert(k.subrange(0, self.prefix@.len() as int) =~= self.prefix@);
            }
            if exists|i: int| 0 <= i < e.len() && #[trigger] e[i].0 == k {
                let i = choose|i: int| 0 <= i < e.len() && #[trigger] e[i].0 == k;
                assert(e2 == e.update(i, (k, file)));
                assert forall|a: int, b: int| 0 <= a < b < e2.len() implies #[trigger] e2[a].0
                    != #[trigger] e2[b].0 by {
                    assert(e[a].0 != e[b].0);
                }
                assert forall|a: int| 0 <= a < e2.len() implies has_prefix(
                    #[trigger] e2[a].0,
                    self.prefix@,
                ) by {
                    if a != i {
                        assert(e2[a] == e[a]);
                    }
                }
            } else {
                assert(e2 == e.push((k, file)));
                assert forall|a: int, b: int| 0 <= a < b < e2.len() implies #[trigger] e2[a].0
                    != #[trigger] e2[b].0 by {
                    if b == e.len() {
                        assert(e2[a] == e[a]);
                    } else {
                        assert(e[a].0 != e[b].0);
                    }
                }
                assert forall|a: int| 0 <= a < e2.len() implies has_prefix(
                    #[trigger] e2[a].0,
                    self.prefix@,
                ) by {
                    if a < e.len() {
                        assert(e2[a] == e[a]);
                    }
                }
            }
        }
    }

    /// The file stored under the full path `path`, prefix included.
    pub fn get(&self, path: &Path) -> (r: Option<&File>)
        ensures
            r is None <==> forall|i: int|
                0 <= i < self.entries().len() ==> #[trigger] self.entries()[i].0 != path@,
            r matches Some(f) ==> exists|i: int|
                0 <= i < self.entries().len() && #[trigger] self.entries()[i] == (path@, *f),
    {
        assert(self.entries() == map_entries(self.files));
        map_get(&self.files, path)
    }

    /// The number of files.
    pub fn len(&self) -> (r: usize)
        ensures
            r == self.entries().len(),
    {
        map_len(&self.files)
    }

    /// The `i`-th file in insertion order, with its full path.
    pub fn get_index(&self, i: usize) -> (r: Option<(&Path, &File)>)
        ensures
            r is Some <==> i < self.entries().len(),
            r matches Some((k, f)) ==> self.entries()[i as int] == (k@, *f),
    {
        map_get_index(&self.files, i)
    }

    /// Stores each file under the prefix followed by its path, in order.
    pub fn add_files(&mut self, files: Vec<(Path, File)>)
        requires
            old(self).wf(),
        ensures
            final(self).wf(),
            final(self).spec_prefix() == old(self).spec_prefix(),
            final(self).entries() == insert_all(
                old(self).entries(),
                old(self).spec_prefix(),
                files@.map_values(|x: (Path, File)| (x.0@, x.1)),
            ),
    {
        let ghost all = files@;
        let ghost items = files@.map_values(|x: (Path, File)| (x.0@, x.1));
        let ghost start = self.entries();
        let n = files.len();
        let mut rest = files;
        let mut i: usize = 0;
        while rest.len() > 0
            invariant
                self.wf(),
                self.spec_prefix() == old(self).spec_prefix(),
                n == all.len(),
                i + rest@.len() == n,
                rest@ == all.skip(i as int),
                items == all.map_values(|x: (Path, File)| (x.0@, x.1)),
                start == old(self).entries(),
                self.entries() == insert_all(start, self.spec_prefix(), items.take(i as int)),
            decreases rest@.len(),
        {
            let ghost before = rest@;
            let (path, file) = rest.remove(0);
            proof {
                assert(before[0] == all.skip(i as int)[0]);
                assert(items[i as int] == (path@, file));
                assert(items.take(i + 1).drop_last() =~= items.take(i as int));
                assert(rest@ =~= all.skip(i + 1));
            }
            self.add_file(path, file);
            i = i + 1;
        }
        assert(items.take(i as int) =~= items);
    }

    /// Stores each file under the prefix followed by its path, in order, up
    /// to the first error, which it returns; what was stored before stays.
    pub fn try_add_files<E>(&mut self, files: Vec<Result<(Path, File), E>>) -> (r: Result<(), E>)
        requires
            old(self).wf(),
        ensures
            final(self).wf(),
            final(self).spec_prefix() == old(self).spec_prefix(),
            r is Ok <==> forall|i: int| 0 <= i < files@.len() ==> #[trigger] files@[i] is Ok,
            r is Ok ==> final(self).entries() == insert_all(
                old(self).entries(),
                old(self).spec_prefix(),
                files@.map_values(|x: Result<(Path, File), E>| (x->Ok_0.0@, x->Ok_0.1)),
            ),
            r matches Err(e) ==> exists|j: int|
                0 <= j < files@.len() && files@[j] == Err::<(Path, File), E>(e) && (forall|i: int|
                    0 <= i < j ==> #[trigger] files@[i] is Ok) && final(self).entries()
                    == insert_all(
                    old(self).entries(),
                    old(self).spec_prefix(),
                    files@.take(j).map_values(
                        |x: Result<(Path, File), E>| (x->Ok_0.0@, x->Ok_0.1),
                    ),
                ),
    {
        let ghost all = files@;
        let ghost items = files@.map_values(|x: Result<(Path, File), E>| (x->Ok_0.0@, x->Ok_0.1));
        let ghost start = self.entries();
        let n = files.len();
        let mut rest = files;
        let mut i: usize = 0;
        while rest.len() > 0
            invariant
                self.wf(),
                self.spec_prefix() == old(self).spec_prefix(),
                n == all.len(),
                i + rest@.len() == n,
                rest@ == all.skip(i as int),
                items == all.map_values(|x: Result<(Path, File), E>| (x->Ok_0.0@, x->Ok_0.1)),
                all == files@,
                start == old(self).entries(),
                forall|k: int| 0 <= k < i ==> #[trigger] all[k] is Ok,
                self.entries() == insert_all(start, self.spec_prefix(), items.take(i as int)),
            decreases rest@.len(),
        {
            let ghost before = rest@;
            let item = rest.remove(0);
            assert(item == all[i as int]) by {
                assert(before[0] == all.skip(i as int)[0]);
            }
            assert(rest@ =~= all.skip(i + 1));
            match item {
                Ok((path, file)) => {
                    proof {
                        assert(items[i as int] == (path@, file));
                        assert(items.take(i + 1).drop_last() =~= items.take(i as int));
                    }
                    self.add_file(path, file);
                    i = i + 1;
                },
                Err(e) => {
                    assert(!(all[i as int] is Ok));
                    assert(files@[i as int] == Err::<(Path, File), E>(e));
                    assert(all.take(i as int).map_values(
                        |x: Result<(Path, File), E>| (x->Ok_0.0@, x->Ok_0.1),
                    ) =~= items.take(i as int));
                    return Err(e);
                },
            }
        }
        assert(items.take(i as int) =~= items);
        Ok(())
    }

    /// The `i`-th file in insertion order, with its path after the prefix:
    /// the path under which it is written out.
    pub fn local_entry(&self, i: usize) -> (r: Option<(Path, &File)>)
        requires
            self.wf(),
        ensures
            r is Some <==> i < self.entries().len(),
            r matches Some((k, f)) ==> self.spec_prefix() + k@ == self.entries()[i as int].0
                && *f == self.entries()[i as int].1,
    {
        match map_get_index(&self.files, i) {
            Some((k, f)) => {
                let n = self.prefix.0.len();
                assert(has_prefix(self.entries()[i as int].0, self.prefix@));
                let local = k.skip(n);
                assert(self.prefix@ + local@ =~= k@);
                Some((local, f))
            },
            None => None,
        }
    }
}

/// The entries after each item is inserted in turn, its key behind `prefix`.
pub open spec fn insert_all(
    e: Seq<(Seq<Seq<char>>, File)>,
    prefix: Seq<Seq<char>>,
    items: Seq<(Seq<Seq<char>>, File)>,
) -> Seq<(Seq<Seq<char>>, File)>
    decreases items.len(),
{
    if items.len() == 0 {
        e
    } else {
        insert_entry(insert_all(e, prefix, items.drop_last()), prefix + items.last().0, items.last().1)
    }
}

/// A file added to a fresh bundle is its only entry, stored under the
/// prefix followed by its path, and the path after the prefix, which is
/// what it is written out under, is that path again.
pub proof fn lemma_prefixing(prefix: Seq<Seq<char>>, path: Seq<Seq<char>>, f: File)
    ensures
        insert_entry(Seq::empty(), prefix + path, f) == seq![(prefix + path, f)],
        has_prefix(prefix + path, prefix),
        (prefix + path).subrange(prefix.len() as int, (prefix + path).len() as int) == path,
{
    assert(Seq::<(Seq<Seq<char>>, File)>::empty().push((prefix + path, f)) =~= seq![(prefix + path, f)]);
    assert((prefix + path).subrange(0, prefix.len() as int) =~= prefix);
    assert((prefix + path).subrange(prefix.len() as int, (prefix + path).len() as int) =~= path);
}

proof fn lemma_join_len(p: Seq<Seq<char>>)
    requires
        p.len() > 1,
    ensures
        join(p).len() == join(p.drop_last()).len() + 1 + p.last().len(),
        join(p)[join(p.drop_last()).len() as int] == SEPARATOR,
{
}

/// Two paths of plain segments, neither empty, with the same entry name are
/// the same path: reading back the name that a path is written under gives
/// that path.
pub proof fn lemma_entry_name_injective(p: Seq<Seq<char>>, q: Seq<Seq<char>>)
    requires
        p.len() > 0,
        q.len() > 0,
        plain_segments(p),
        plain_segments(q),
        entry_name_of(p) == entry_name_of(q),
    ensures
        p == q,
    decreases p.len() + q.len(),
{
    let jp = join(p);
    let jq = join(q);
    assert(jp =~= entry_name_of(p).subrange(0, jp.len() as int));
    assert(jq =~= entry_name_of(q).subrange(0, jq.len() as int));
    assert(entry_name_of(p).len() == jp.len() + 4);
    assert(entry_name_of(q).len() == jq.len() + 4);
    assert(jp == jq);
    if p.len() == 1 && q.len() == 1 {
        assert(p =~= q);
    } else if p.len() == 1 {
        lemma_join_len(q);
        let k = join(q.drop_last()).len() as int;
        assert(p[0][k] == SEPARATOR);
    } else if q.len() == 1 {
        lemma_join_len(p);
        let k = join(p.drop_last()).len() as int;
        assert(q[0][k] == SEPARATOR);
    } else {
        lemma_join_len(p);
        lemma_join_len(q);
        let x = p.last();
        let y = q.last();
        let a = join(p.drop_last());
        let b = join(q.drop_last());
        if x.len() < y.len() {
            let k = a.len() as int;
            assert(jq[k] == y[k - b.len() - 1]);
            assert(p.last() == p[p.len() - 1]);
            assert(y == q[q.len() - 1]);
        } else if y.len() < x.len() {
            let k = b.len() as int;
            assert(jp[k] == x[k - a.len() - 1]);
            assert(x == p[p.len() - 1]);
        } else {
            assert(x =~= jp.subrange(a.len() + 1int, jp.len() as int));
            assert(y =~= jq.subrange(b.len() + 1int, jq.len() as int));
            assert(a =~= jp.subrange(0, a.len() as int));
            assert(b =~= jq.subrange(0, b.len() as int));
            assert(join(p.drop_last()) + extension() =~= entry_name_of(p.drop_last()));
            assert(join(q.drop_last()) + extension() =~= entry_name_of(q.drop_last()));
            assert(plain_segments(p.drop_last())) by {
                assert forall|i: int, j: int|
                    0 <= i < p.drop_last().len() && 0 <= j < p.drop_last()[i].len() implies #[trigger] p.drop_last()[i][j]
                    != SEPARATOR by {
                    assert(p.drop_last()[i] == p[i]);
                }
            }
            assert(plain_segments(q.drop_last())) by {
                assert forall|i: int, j: int|
                    0 <= i < q.drop_last().len() && 0 <= j < q.drop_last()[i].len() implies #[trigger] q.drop_last()[i][j]
                    != SEPARATOR by {
                    assert(q.drop_last()[i] == q[i]);
                }
            }
            lemma_entry_name_injective(p.drop_last(), q.drop_last());
            assert(p =~= p.drop_last().push(x));
            assert(q =~= q.drop_last().push(y));
        }
    }
}

} // verus!
