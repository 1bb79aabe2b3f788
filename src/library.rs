//! Named sets and the store that holds them.

use vstd::prelude::*;
use crate::expr::{Expr, SongSet, SongTree};
use crate::parse::{ParseError, ParseFault, parse};
use crate::song::{Song, SongView, items_of, views};

verus! {

/// A named expression.
#[derive(Debug)]
pub struct Playset {
    pub name: String,
    pub songs: SongTree,
}

impl Playset {
    /// A set of the given name that holds no songs.
    pub fn empty_terminal(name: String) -> (r: Playset)
        ensures
            r.name == name,
            r.songs.view() == Expr::Items(Seq::empty()),
    {
        let r = Playset { name, songs: SongTree::Leaf(SongSet::Terminal(Vec::new())) };
        assert(views(Seq::<Song>::empty()) =~= Seq::empty());
        r
    }
}

/// Why a change to the store was refused.
#[derive(Debug)]
pub enum StoreError {
    /// The store already holds a set of that name, or it is the universal set's name.
    DuplicateName(String),
}

/// Why a set could not be added from its encoding.
#[derive(Debug)]
pub enum LoadError {
    /// The text is not the encoding of an expression.
    Parse(ParseError),
    /// The name is taken.
    Store(StoreError),
}

/// A set that could not be added, with the reason.
#[derive(Debug)]
pub struct LoadFailure {
    pub name: String,
    pub error: LoadError,
}

/// The mathematical value of a [`LoadError`].
pub enum LoadFault {
    Parse(ParseFault),
    DuplicateName(Seq<char>),
}

impl View for LoadError {
    type V = LoadFault;

    open spec fn view(&self) -> LoadFault {
        match self {
            LoadError::Parse(e) => LoadFault::Parse(e@),
            LoadError::Store(StoreError::DuplicateName(n)) => LoadFault::DuplicateName(n@),
        }
    }
}

impl View for LoadFailure {
    type V = (Seq<char>, LoadFault);

    open spec fn view(&self) -> (Seq<char>, LoadFault) {
        (self.name@, self.error@)
    }
}

/// The name of the universal set.
pub open spec fn universal_name() -> Seq<char> {
    seq!['U']
}

/// The mathematical value of a [`Library`]: the universal set, and each
/// other set's expression by name.
pub struct LibraryView {
    pub universe: Seq<SongView>,
    pub entries: Map<Seq<char>, Expr>,
}

impl LibraryView {
    /// Every name that an expression can refer to, with its expression.
    pub open spec fn store(self) -> Map<Seq<char>, Expr> {
        self.entries.insert(universal_name(), Expr::Items(self.universe))
    }

    /// The store accepts a new set under `name`.
    pub open spec fn name_is_free(self, name: Seq<char>) -> bool {
        name != universal_name() && !self.entries.contains_key(name)
    }
}

/// The names and texts of `v`.
pub open spec fn texts_view(v: Seq<(String, String)>) -> Seq<(Seq<char>, Seq<char>)> {
    v.map_values(|p: (String, String)| (p.0@, p.1@))
}

/// What adding the set `name` encoded by `text` to `lib` gives: the new
/// store, or why it is refused.
pub open spec fn add_text(lib: LibraryView, name: Seq<char>, text: Seq<char>) -> Result<
    LibraryView,
    LoadFault,
> {
    match parse(text, items_of(lib.universe)) {
        Err(f) => Err(LoadFault::Parse(f)),
        Ok(e) => if lib.name_is_free(name) {
            Ok(LibraryView { universe: lib.universe, entries: lib.entries.insert(name, e) })
        } else {
            Err(LoadFault::DuplicateName(name))
        },
    }
}

/// The store and the refused sets after adding each of `texts` in turn to
/// `lib`; a refused one is skipped.
pub open spec fn add_texts(lib: LibraryView, texts: Seq<(Seq<char>, Seq<char>)>) -> (
    LibraryView,
    Seq<(Seq<char>, LoadFault)>,
)
    decreases texts.len(),
{
    if texts.len() == 0 {
        (lib, Seq::empty())
    } else {
        let (l, fails) = add_texts(lib, texts.drop_last());
        let (name, text) = texts.last();
        match add_text(l, name, text) {
            Ok(next) => (next, fails),
            Err(f) => (l, fails.push((name, f))),
        }
    }
}

/// The expression of each named set of `s`, by name.
pub open spec fn entries_of(s: Seq<Playset>) -> Map<Seq<char>, Expr>
    decreases s.len(),
{
    if s.len() == 0 {
        Map::empty()
    } else {
        entries_of(s.drop_last()).insert(s.last().name@, s.last().songs.view())
    }
}

/// The names of `entries_of(s)` are the names in `s`, and, where the names
/// are distinct, each one maps to its own set's expression.
pub proof fn lemma_entries_of(s: Seq<Playset>)
    ensures
        entries_of(s).dom().finite(),
        forall|n: Seq<char>| #[trigger]
            entries_of(s).contains_key(n) <==> exists|i: int| 0 <= i < s.len() && s[i].name@ == n,
        (forall|i: int, j: int| 0 <= i < j < s.len() ==> #[trigger] s[i].name@ != #[trigger] s[j].name@)
            ==> forall|i: int| 0 <= i < s.len() ==> #[trigger] entries_of(s)[s[i].name@] == s[i].songs.view(),
    decreases s.len(),
{
    if s.len() > 0 {
        let p = s.drop_last();
        lemma_entries_of(p);
        assert forall|n: Seq<char>| #[trigger] entries_of(s).contains_key(n) <==> exists|i: int|
            0 <= i < s.len() && s[i].name@ == n by {
            if exists|i: int| 0 <= i < p.len() && p[i].name@ == n {
                let i = choose|i: int| 0 <= i < p.len() && p[i].name@ == n;
                assert(s[i].name@ == n);
            }
            if exists|i: int| 0 <= i < s.len() && s[i].name@ == n {
                let i = choose|i: int| 0 <= i < s.len() && s[i].name@ == n;
                if i < s.len() - 1 {
                    assert(p[i].name@ == n);
                }
            }
        }
        if forall|i: int, j: int| 0 <= i < j < s.len() ==> #[trigger] s[i].name@ != #[trigger] s[j].name@ {
            assert forall|i: int, j: int| 0 <= i < j < p.len() implies #[trigger] p[i].name@
                != #[trigger] p[j].name@ by {
                assert(s[i].name@ != s[j].name@);
            }
            assert forall|i: int| 0 <= i < s.len() implies #[trigger] entries_of(s)[s[i].name@]
                == s[i].songs.view() by {
                if i < s.len() - 1 {
                    assert(p[i] == s[i]);
                    assert(s[i].name@ != s[s.len() - 1].name@);
                }
            }
        }
    }
}

/// The universal set and the other named sets.
#[derive(Debug)]
pub struct Library {
    universal_set: Playset,
    sets: Vec<Playset>,
}

impl View for Library {
    type V = LibraryView;

    closed spec fn view(&self) -> LibraryView {
        LibraryView {
            universe: match self.universal_set.songs {
                SongTree::Leaf(SongSet::Terminal(v)) => views(v@),
                _ => Seq::empty(),
            },
            entries: entries_of(self.sets@),
        }
    }
}

impl Library {
    /// The fields keep the shape that the view describes.
    pub closed spec fn inv(&self) -> bool {
        &&& self.universal_set.name@ == universal_name()
        &&& self.universal_set.songs matches SongTree::Leaf(SongSet::Terminal(_))
        &&& forall|i: int, j: int|
            0 <= i < j < self.sets@.len() ==> #[trigger] self.sets@[i].name@
                != #[trigger] self.sets@[j].name@
        &&& forall|i: int| 0 <= i < self.sets@.len() ==> #[trigger] self.sets@[i].name@ != universal_name()
    }

    /// Well-formedness: the named sets are finitely many, and none takes the
    /// universal set's name.
    pub open spec fn wf(&self) -> bool {
        &&& self.inv()
        &&& self@.entries.dom().finite()
        &&& !self@.entries.contains_key(universal_name())
    }

    proof fn lemma_wf(&self)
        requires
            self.inv(),
        ensures
            self.wf(),
    {
        lemma_entries_of(self.sets@);
        if self@.entries.contains_key(universal_name()) {
            let i = choose|i: int| 0 <= i < self.sets@.len() && self.sets@[i].name@ == universal_name();
            assert(self.sets@[i].name@ != universal_name());
        }
    }

    /// A store whose universal set holds `universe` and that has no other set.
    pub fn new(universe: Vec<Song>) -> (r: Library)
        ensures
            r.wf(),
            r@.universe == views(universe@),
            r@.entries == Map::<Seq<char>, Expr>::empty(),
    {
        let name = "U".to_owned();
        proof {
            reveal_strlit("U");
            assert(name@ =~= universal_name());
        }
        let r = Library {
            universal_set: Playset { name, songs: SongTree::Leaf(SongSet::Terminal(universe)) },
            sets: Vec::new(),
        };
        proof {
            r.lemma_wf();
        }
        r
    }

    /// The universal set.
    pub fn universal_set(&self) -> (r: &Playset)
        requires
            self.wf(),
        ensures
            r.name@ == universal_name(),
            r.songs.view() == Expr::Items(self@.universe),
    {
        &self.universal_set
    }

    /// The named sets other than the universal set.
    pub fn sets(&self) -> (r: &Vec<Playset>)
        requires
            self.wf(),
        ensures
            entries_of(r@) == self@.entries,
            forall|i: int, j: int| 0 <= i < j < r@.len() ==> #[trigger] r@[i].name@ != #[trigger] r@[j].name@,
    {
        &self.sets
    }

    /// The set named `name`, the universal set included.
    pub fn get(&self, name: &String) -> (r: Option<&Playset>)
        requires
            self.wf(),
        ensures
            r is Some <==> self@.store().contains_key(name@),
            r matches Some(p) ==> p.name@ == name@ && p.songs.view() == self@.store()[name@],
    {
        if self.universal_set.name == *name {
            return Some(&self.universal_set);
        }
        proof {
            lemma_entries_of(self.sets@);
        }
        let mut i: usize = 0;
        while i < self.sets.len()
            invariant
                self.wf(),
                name@ != universal_name(),
                i <= self.sets.len(),
                forall|j: int| 0 <= j < i ==> #[trigger] self.sets@[j].name@ != name@,
            decreases self.sets.len() - i,
        {
            if self.sets[i].name == *name {
                proof {
                    lemma_entries_of(self.sets@);
                    assert(self.sets@[i as int].name@ == name@);
                }
                return Some(&self.sets[i]);
            }
            i = i + 1;
        }
        proof {
            lemma_entries_of(self.sets@);
        }
        None
    }

    /// Looks for a set named `name`, the universal set included.
    pub fn contains(&self, name: &String) -> (r: bool)
        requires
            self.wf(),
        ensures
            r == self@.store().contains_key(name@),
    {
        self.get(name).is_some()
    }

    /// Adds `set` under its name, unless that name is taken.
    pub fn push_set(&mut self, set: Playset) -> (r: Result<(), StoreError>)
        requires
            old(self).wf(),
        ensures
            final(self).wf(),
            final(self)@.universe == old(self)@.universe,
            old(self)@.name_is_free(set.name@) ==> r is Ok && final(self)@.entries == old(
                self,
            )@.entries.insert(set.name@, set.songs.view()),
            !old(self)@.name_is_free(set.name@) ==> r == Err::<(), StoreError>(
                StoreError::DuplicateName(set.name),
            ) && final(self)@ == old(self)@,
    {
        if self.contains(&set.name) {
            return Err(StoreError::DuplicateName(set.name));
        }
        let ghost before = self.sets@;
        self.sets.push(set);
        proof {
            assert(self.sets@.drop_last() =~= before);
            lemma_entries_of(before);
            assert forall|i: int| 0 <= i < self.sets@.len() - 1 implies #[trigger] self.sets@[i].name@
                != set.name@ by {
                assert(before[i].name@ == self.sets@[i].name@);
            }
            self.lemma_wf();
        }
        Ok(())
    }

    /// The songs of the universal set.
    fn universe(&self) -> (r: &Vec<Song>)
        requires
            self.inv(),
        ensures
            views(r@) == self@.universe,
    {
        match &self.universal_set.songs {
            SongTree::Leaf(SongSet::Terminal(v)) => v,
            _ => vstd::pervasive::unreached(),
        }
    }

    /// Adds the set `name` whose expression `text` encodes, item names
    /// resolved in the universal set, unless the text is no such encoding or
    /// the name is taken.
    pub fn add_from_pset_string(&mut self, name: String, text: &str) -> (r: Result<(), LoadError>)
        requires
            old(self).wf(),
        ensures
            final(self).wf(),
            match add_text(old(self)@, name@, text@) {
                Ok(next) => r is Ok && final(self)@ == next,
                Err(f) => r matches Err(e) && e@ == f && final(self)@ == old(self)@,
            },
    {
        let parsed = SongTree::from_pset_string(text, self.universe());
        match parsed {
            Err(e) => Err(LoadError::Parse(e)),
            Ok(songs) => match self.push_set(Playset { name, songs }) {
                Ok(()) => Ok(()),
                Err(e) => Err(LoadError::Store(e)),
            },
        }
    }

    /// A store whose universal set holds `universe`, with each of `texts`,
    /// a name and the encoding of its expression, added in turn; those that
    /// cannot be added are skipped and returned with the reason.
    pub fn load(universe: Vec<Song>, texts: &Vec<(String, String)>) -> (r: (Library, Vec<LoadFailure>))
        ensures
            r.0.wf(),
            (r.0@, r.1@.map_values(|f: LoadFailure| f@)) == add_texts(
                LibraryView { universe: views(universe@), entries: Map::empty() },
                texts_view(texts@),
            ),
    {
        let mut lib = Library::new(universe);
        let ghost start = lib@;
        let ghost tv = texts_view(texts@);
        let mut failures: Vec<LoadFailure> = Vec::new();
        let mut i: usize = 0;
        assert(tv.take(0) =~= Seq::<(Seq<char>, Seq<char>)>::empty());
        assert(failures@.map_values(|f: LoadFailure| f@) =~= Seq::<(Seq<char>, LoadFault)>::empty());
        while i < texts.len()
            invariant
                i <= texts.len(),
                tv == texts_view(texts@),
                lib.wf(),
                (lib@, failures@.map_values(|f: LoadFailure| f@)) == add_texts(start, tv.take(i as int)),
            decreases texts.len() - i,
        {
            proof {
                assert(tv.take(i + 1).drop_last() =~= tv.take(i as int));
            }
            let name = texts[i].0.clone();
            match lib.add_from_pset_string(name, texts[i].1.as_str()) {
                Ok(()) => {},
                Err(error) => {
                    let ghost before = failures@.map_values(|f: LoadFailure| f@);
                    failures.push(LoadFailure { name: texts[i].0.clone(), error });
                    assert(failures@.map_values(|f: LoadFailure| f@) =~= before.push(
                        (tv[i as int].0, error@),
                    ));
                },
            }
            i = i + 1;
        }
        assert(tv.take(texts.len() as int) =~= tv);
        (lib, failures)
    }

    /// Adds an empty literal set named `name`, unless that name is taken.
    pub fn push_empty_set(&mut self, name: String) -> (r: Result<(), StoreError>)
        requires
            old(self).wf(),
        ensures
            final(self).wf(),
            final(self)@.universe == old(self)@.universe,
            old(self)@.name_is_free(name@) ==> r is Ok && final(self)@.entries == old(
                self,
            )@.entries.insert(name@, Expr::Items(Seq::empty())),
            !old(self)@.name_is_free(name@) ==> r == Err::<(), StoreError>(
                StoreError::DuplicateName(name),
            ) && final(self)@ == old(self)@,
    {
        self.push_set(Playset::empty_terminal(name))
    }
}

} // verus!
