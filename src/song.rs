//! Item records and the model of a resolved set of items.
//!
//! Items are identified by name: a resolved set maps each name it holds to
//! one record, and a vector of songs stands for the set whose record for a
//! name is the first one listed under that name.

use vstd::prelude::*;

verus! {

/// One media item.
#[derive(Debug)]
pub struct Song {
    pub name: String,
    pub genre: String,
    pub artist: String,
    pub album: String,
    pub duration: u64,
}

/// The mathematical value of a [`Song`].
pub struct SongView {
    pub name: Seq<char>,
    pub genre: Seq<char>,
    pub artist: Seq<char>,
    pub album: Seq<char>,
    pub duration: u64,
}

impl View for Song {
    type V = SongView;

    open spec fn view(&self) -> SongView {
        SongView {
            name: self.name@,
            genre: self.genre@,
            artist: self.artist@,
            album: self.album@,
            duration: self.duration,
        }
    }
}

impl Clone for Song {
    fn clone(&self) -> (r: Song)
        ensures
            r == *self,
    {
        Song {
            name: self.name.clone(),
            genre: self.genre.clone(),
            artist: self.artist.clone(),
            album: self.album.clone(),
            duration: self.duration,
        }
    }
}

/// The records of a sequence of songs.
pub open spec fn views(s: Seq<Song>) -> Seq<SongView> {
    s.map_values(|x: Song| x@)
}

/// Some record of `s` carries the name `n`.
pub open spec fn has_name(s: Seq<SongView>, n: Seq<char>) -> bool {
    exists|i: int| 0 <= i < s.len() && #[trigger] s[i].name == n
}

/// No two records of `s` share a name.
pub open spec fn distinct_names(s: Seq<SongView>) -> bool {
    forall|i: int, j: int| 0 <= i < j < s.len() ==> #[trigger] s[i].name != #[trigger] s[j].name
}

/// The set of items that `s` stands for, keyed by name: each name of `s`
/// maps to the first record of `s` under that name.
pub open spec fn items_of(s: Seq<SongView>) -> Map<Seq<char>, SongView>
    decreases s.len(),
{
    if s.len() == 0 {
        Map::empty()
    } else {
        let m = items_of(s.drop_last());
        if m.contains_key(s.last().name) {
            m
        } else {
            m.insert(s.last().name, s.last())
        }
    }
}

/// The names held by `items_of(s)` are exactly the names of `s`, and every
/// record it holds is filed under its own name.
pub proof fn lemma_items_of(s: Seq<SongView>)
    ensures
        items_of(s).dom().finite(),
        forall|n: Seq<char>| #[trigger] items_of(s).contains_key(n) <==> has_name(s, n),
        forall|n: Seq<char>| #[trigger] items_of(s).contains_key(n) ==> items_of(s)[n].name == n,
    decreases s.len(),
{
    if s.len() > 0 {
        let p = s.drop_last();
        lemma_items_of(p);
        assert forall|n: Seq<char>| #[trigger] items_of(s).contains_key(n) <==> has_name(s, n) by {
            if has_name(p, n) {
                let i = choose|i: int| 0 <= i < p.len() && #[trigger] p[i].name == n;
                assert(s[i].name == n);
            }
            if has_name(s, n) {
                let i = choose|i: int| 0 <= i < s.len() && #[trigger] s[i].name == n;
                if i < s.len() - 1 {
                    assert(p[i].name == n);
                }
            }
        }
    }
}

/// The record that `items_of(s)` holds under the name of `s[i]` is `s[i]`,
/// when no record before it carries that name.
pub proof fn lemma_items_of_first(s: Seq<SongView>, i: int)
    requires
        0 <= i < s.len(),
        forall|j: int| 0 <= j < i ==> #[trigger] s[j].name != s[i].name,
    ensures
        items_of(s).contains_key(s[i].name),
        items_of(s)[s[i].name] == s[i],
    decreases s.len(),
{
    let p = s.drop_last();
    lemma_items_of(p);
    if i < s.len() - 1 {
        lemma_items_of_first(p, i);
    } else {
        assert(!has_name(p, s[i].name));
    }
}

/// Looks for a song named `name` in `v`.
pub fn contains_name(v: &Vec<Song>, name: &String) -> (r: bool)
    ensures
        r == has_name(views(v@), name@),
{
    let mut i: usize = 0;
    while i < v.len()
        invariant
            i <= v.len(),
            forall|j: int| 0 <= j < i ==> #[trigger] v@[j].name@ != name@,
        decreases v.len() - i,
    {
        if v[i].name == *name {
            assert(views(v@)[i as int].name == name@);
            return true;
        }
        i = i + 1;
    }
    assert forall|j: int| 0 <= j < views(v@).len() implies #[trigger] views(v@)[j].name != name@ by {
        assert(v@[j].name@ != name@);
    }
    false
}

/// The record filed under `name` in the set that `universe` stands for.
pub fn resolve(universe: &Vec<Song>, name: &String) -> (r: Option<Song>)
    ensures
        r is Some <==> items_of(views(universe@)).contains_key(name@),
        r matches Some(song) ==> song@ == items_of(views(universe@))[name@],
{
    let ghost u = views(universe@);
    proof {
        lemma_items_of(u);
    }
    let mut i: usize = 0;
    while i < universe.len()
        invariant
            i <= universe.len(),
            u == views(universe@),
            forall|j: int| 0 <= j < i ==> #[trigger] u[j].name != name@,
        decreases universe.len() - i,
    {
        if universe[i].name == *name {
            proof {
                lemma_items_of_first(u, i as int);
            }
            return Some(universe[i].clone());
        }
        i = i + 1;
    }
    assert(!has_name(u, name@));
    None
}

/// Adds `song` to the set that `out` stands for, unless `out` already holds
/// an item of that name.
pub fn insert_item(out: &mut Vec<Song>, song: &Song)
    requires
        distinct_names(views(old(out)@)),
    ensures
        distinct_names(views(final(out)@)),
        items_of(views(final(out)@)) == if items_of(views(old(out)@)).contains_key(song@.name) {
            items_of(views(old(out)@))
        } else {
            items_of(views(old(out)@)).insert(song@.name, song@)
        },
{
    proof {
        lemma_items_of(views(out@));
    }
    if !contains_name(out, &song.name) {
        let ghost before = views(out@);
        out.push(song.clone());
        proof {
            assert(views(out@).drop_last() =~= before);
            assert(views(out@).last() == song@);
            assert forall|i: int, j: int| 0 <= i < j < views(out@).len() implies #[trigger] views(
                out@,
            )[i].name != #[trigger] views(out@)[j].name by {
                if j == views(out@).len() - 1 {
                    assert(before[i].name != song@.name);
                } else {
                    assert(before[i].name != before[j].name);
                }
            }
        }
    }
}

} // verus!
