//! The chord diagrams that ship with the player: a map from diagram keys to
//! the image files that draw them.

use vstd::prelude::*;
use crate::chords::{key_of_name, lemma_name_chars, lemma_plain_name, simplified};
use crate::text::str_eq;

verus! {

broadcast use vstd::string::group_string_axioms;

/// The map made by inserting `entries` in order, a later entry for a key
/// replacing an earlier one.
pub open spec fn map_of(entries: Seq<(Seq<char>, Seq<char>)>) -> Map<Seq<char>, Seq<char>>
    decreases entries.len(),
{
    if entries.len() == 0 {
        Map::empty()
    } else {
        map_of(entries.drop_last()).insert(entries.last().0, entries.last().1)
    }
}

/// A map from diagram keys to image paths.
pub struct ChordAssetMap {
    entries: Vec<(&'static str, &'static str)>,
}

impl ChordAssetMap {
    /// The entries, in the order in which they were inserted.
    pub closed spec fn entries_view(&self) -> Seq<(Seq<char>, Seq<char>)> {
        self.entries@.map_values(|e: (&'static str, &'static str)| (e.0@, e.1@))
    }

    /// The map that the entries make.
    pub open spec fn as_map(&self) -> Map<Seq<char>, Seq<char>> {
        map_of(self.entries_view())
    }

    /// The number of entries.
    pub fn len(&self) -> (r: usize)
        ensures
            r == self.entries_view().len(),
    {
        self.entries.len()
    }

    /// The image paths, in the order in which they were inserted.
    pub fn paths(&self) -> (r: Vec<&'static str>)
        ensures
            r@.map_values(|p: &'static str| p@) == self.entries_view().map_values(
                |e: (Seq<char>, Seq<char>)| e.1,
            ),
    {
        let mut r: Vec<&'static str> = Vec::new();
        let mut i: usize = 0;
        while i < self.entries.len()
            invariant
                i <= self.entries@.len(),
                r@.map_values(|p: &'static str| p@) == self.entries_view().take(i as int).map_values(
                    |e: (Seq<char>, Seq<char>)| e.1,
                ),
            decreases self.entries@.len() - i,
        {
            let ghost prev = r@;
            let (_, path) = self.entries[i];
            r.push(path);
            assert(r@.map_values(|p: &'static str| p@) == prev.map_values(|p: &'static str| p@).push(
                path@,
            ));
            assert(self.entries_view().take(i + 1) == self.entries_view().take(i as int).push(
                self.entries_view()[i as int],
            ));
            i += 1;
        }
        assert(self.entries_view().take(i as int) == self.entries_view());
        r
    }

    /// The image path for `key`, where the map holds one.
    pub fn get(&self, key: &str) -> (r: Option<&'static str>)
        ensures
            match r {
                Some(path) => self.as_map().contains_key(key@) && self.as_map()[key@] == path@,
                None => !self.as_map().contains_key(key@),
            },
    {
        let ghost ev = self.entries_view();
        let mut i = self.entries.len();
        while i > 0
            invariant
                i <= self.entries@.len(),
                ev == self.entries_view(),
                forall|j: int| i <= j < ev.len() ==> ev[j].0 != key@,
            decreases i,
        {
            i -= 1;
            let (k, v) = self.entries[i];
            if str_eq(k, key) {
                proof {
                    lemma_map_of_last_match(ev, key@, i as int);
                }
                return Some(v);
            }
        }
        proof {
            lemma_map_of_absent(ev, key@);
        }
        None
    }
}

/// A key that no entry has is not in the map.
pub proof fn lemma_map_of_absent(entries: Seq<(Seq<char>, Seq<char>)>, key: Seq<char>)
    requires
        forall|j: int| 0 <= j < entries.len() ==> entries[j].0 != key,
    ensures
        !map_of(entries).contains_key(key),
    decreases entries.len(),
{
    if entries.len() > 0 {
        lemma_map_of_absent(entries.drop_last(), key);
    }
}

/// The map gives a key the value of the last entry that has it.
pub proof fn lemma_map_of_last_match(
    entries: Seq<(Seq<char>, Seq<char>)>,
    key: Seq<char>,
    i: int,
)
    requires
        0 <= i < entries.len(),
        entries[i].0 == key,
        forall|j: int| i < j < entries.len() ==> entries[j].0 != key,
    ensures
        map_of(entries).contains_key(key),
        map_of(entries)[key] == entries[i].1,
    decreases entries.len(),
{
    if i < entries.len() - 1 {
        lemma_map_of_last_match(entries.drop_last(), key, i);
    }
}

/// Every key of an entry is in the map.
pub proof fn lemma_map_of_contains(entries: Seq<(Seq<char>, Seq<char>)>, i: int)
    requires
        0 <= i < entries.len(),
    ensures
        map_of(entries).contains_key(entries[i].0),
    decreases entries.len(),
{
    if i < entries.len() - 1 {
        lemma_map_of_contains(entries.drop_last(), i);
    }
}

/// The diagrams that ship with the player: key, then image path.
pub open spec fn asset_table() -> Seq<(Seq<char>, Seq<char>)> {
    seq![
        ("a"@, "assets/chords/a.png"@),
        ("ab"@, "assets/chords/ab.png"@),
        ("abm"@, "assets/chords/abm.png"@),
        ("am"@, "assets/chords/am.png"@),
        ("b"@, "assets/chords/b.png"@),
        ("bb"@, "assets/chords/bb.png"@),
        ("bbm"@, "assets/chords/bbm.png"@),
        ("bm"@, "assets/chords/bm.png"@),
        ("c"@, "assets/chords/c.png"@),
        ("c#"@, "assets/chords/c#.png"@),
        ("c#m"@, "assets/chords/c#m.png"@),
        ("cm"@, "assets/chords/cm.png"@),
        ("d"@, "assets/chords/d.png"@),
        ("dm"@, "assets/chords/dm.png"@),
        ("e"@, "assets/chords/e.png"@),
        ("eb"@, "assets/chords/eb.png"@),
        ("ebm"@, "assets/chords/ebm.png"@),
        ("em"@, "assets/chords/em.png"@),
        ("f"@, "assets/chords/f.png"@),
        ("f#m"@, "assets/chords/f#m.png"@),
        ("fm"@, "assets/chords/fm.png"@),
        ("g"@, "assets/chords/g.png"@),
        ("gm"@, "assets/chords/gm.png"@),
    ]
}

/// The map of the diagrams that ship with the player.
pub fn chord_asset_map() -> (r: ChordAssetMap)
    ensures
        r.entries_view() == asset_table(),
{
    let mut entries: Vec<(&'static str, &'static str)> = Vec::new();
    entries.push(("a", "assets/chords/a.png"));
    entries.push(("ab", "assets/chords/ab.png"));
    entries.push(("abm", "assets/chords/abm.png"));
    entries.push(("am", "assets/chords/am.png"));
    entries.push(("b", "assets/chords/b.png"));
    entries.push(("bb", "assets/chords/bb.png"));
    entries.push(("bbm", "assets/chords/bbm.png"));
    entries.push(("bm", "assets/chords/bm.png"));
    entries.push(("c", "assets/chords/c.png"));
    entries.push(("c#", "assets/chords/c#.png"));
    entries.push(("c#m", "assets/chords/c#m.png"));
    entries.push(("cm", "assets/chords/cm.png"));
    entries.push(("d", "assets/chords/d.png"));
    entries.push(("dm", "assets/chords/dm.png"));
    entries.push(("e", "assets/chords/e.png"));
    entries.push(("eb", "assets/chords/eb.png"));
    entries.push(("ebm", "assets/chords/ebm.png"));
    entries.push(("em", "assets/chords/em.png"));
    entries.push(("f", "assets/chords/f.png"));
    entries.push(("f#m", "assets/chords/f#m.png"));
    entries.push(("fm", "assets/chords/fm.png"));
    entries.push(("g", "assets/chords/g.png"));
    entries.push(("gm", "assets/chords/gm.png"));
    let r = ChordAssetMap { entries };
    assert(r.entries_view() =~= asset_table());
    r
}


/// Every diagram key that a chord name can lead to has a diagram among those
/// that ship with the player.
pub proof fn law_every_key_has_diagram(raw: Seq<char>)
    ensures
        key_of_name(simplified(raw)) matches Some(k) ==> map_of(asset_table()).contains_key(k),
{
    lemma_map_of_contains(asset_table(), 0);
    lemma_map_of_contains(asset_table(), 1);
    lemma_map_of_contains(asset_table(), 2);
    lemma_map_of_contains(asset_table(), 3);
    lemma_map_of_contains(asset_table(), 4);
    lemma_map_of_contains(asset_table(), 5);
    lemma_map_of_contains(asset_table(), 6);
    lemma_map_of_contains(asset_table(), 7);
    lemma_map_of_contains(asset_table(), 8);
    lemma_map_of_contains(asset_table(), 9);
    lemma_map_of_contains(asset_table(), 10);
    lemma_map_of_contains(asset_table(), 11);
    lemma_map_of_contains(asset_table(), 12);
    lemma_map_of_contains(asset_table(), 13);
    lemma_map_of_contains(asset_table(), 14);
    lemma_map_of_contains(asset_table(), 15);
    lemma_map_of_contains(asset_table(), 16);
    lemma_map_of_contains(asset_table(), 17);
    lemma_map_of_contains(asset_table(), 18);
    lemma_map_of_contains(asset_table(), 19);
    lemma_map_of_contains(asset_table(), 20);
    lemma_map_of_contains(asset_table(), 21);
    lemma_map_of_contains(asset_table(), 22);
}


/// Every key in the map is the key of some entry.
pub proof fn lemma_map_of_keys(entries: Seq<(Seq<char>, Seq<char>)>, k: Seq<char>)
    requires
        map_of(entries).contains_key(k),
    ensures
        exists|i: int| 0 <= i < entries.len() && entries[i].0 == k,
    decreases entries.len(),
{
    if entries.len() > 0 && entries.last().0 != k {
        lemma_map_of_keys(entries.drop_last(), k);
        let i = choose|i: int| 0 <= i < entries.len() - 1 && entries.drop_last()[i].0 == k;
        assert(entries[i] == entries.drop_last()[i]);
    }
}

/// The characters of the diagram keys.
pub proof fn lemma_key_chars()
    ensures
        "a"@ == seq!['a'],
        "ab"@ == seq!['a', 'b'],
        "abm"@ == seq!['a', 'b', 'm'],
        "am"@ == seq!['a', 'm'],
        "b"@ == seq!['b'],
        "bb"@ == seq!['b', 'b'],
        "bbm"@ == seq!['b', 'b', 'm'],
        "bm"@ == seq!['b', 'm'],
        "c"@ == seq!['c'],
        "c#"@ == seq!['c', '#'],
        "c#m"@ == seq!['c', '#', 'm'],
        "cm"@ == seq!['c', 'm'],
        "d"@ == seq!['d'],
        "dm"@ == seq!['d', 'm'],
        "e"@ == seq!['e'],
        "eb"@ == seq!['e', 'b'],
        "ebm"@ == seq!['e', 'b', 'm'],
        "em"@ == seq!['e', 'm'],
        "f"@ == seq!['f'],
        "f#m"@ == seq!['f', '#', 'm'],
        "fm"@ == seq!['f', 'm'],
        "g"@ == seq!['g'],
        "gm"@ == seq!['g', 'm'],
{
    reveal_strlit("a");
    reveal_strlit("ab");
    reveal_strlit("abm");
    reveal_strlit("am");
    reveal_strlit("b");
    reveal_strlit("bb");
    reveal_strlit("bbm");
    reveal_strlit("bm");
    reveal_strlit("c");
    reveal_strlit("c#");
    reveal_strlit("c#m");
    reveal_strlit("cm");
    reveal_strlit("d");
    reveal_strlit("dm");
    reveal_strlit("e");
    reveal_strlit("eb");
    reveal_strlit("ebm");
    reveal_strlit("em");
    reveal_strlit("f");
    reveal_strlit("f#m");
    reveal_strlit("fm");
    reveal_strlit("g");
    reveal_strlit("gm");
    assert("a"@ =~= seq!['a']);
    assert("ab"@ =~= seq!['a', 'b']);
    assert("abm"@ =~= seq!['a', 'b', 'm']);
    assert("am"@ =~= seq!['a', 'm']);
    assert("b"@ =~= seq!['b']);
    assert("bb"@ =~= seq!['b', 'b']);
    assert("bbm"@ =~= seq!['b', 'b', 'm']);
    assert("bm"@ =~= seq!['b', 'm']);
    assert("c"@ =~= seq!['c']);
    assert("c#"@ =~= seq!['c', '#']);
    assert("c#m"@ =~= seq!['c', '#', 'm']);
    assert("cm"@ =~= seq!['c', 'm']);
    assert("d"@ =~= seq!['d']);
    assert("dm"@ =~= seq!['d', 'm']);
    assert("e"@ =~= seq!['e']);
    assert("eb"@ =~= seq!['e', 'b']);
    assert("ebm"@ =~= seq!['e', 'b', 'm']);
    assert("em"@ =~= seq!['e', 'm']);
    assert("f"@ =~= seq!['f']);
    assert("f#m"@ =~= seq!['f', '#', 'm']);
    assert("fm"@ =~= seq!['f', 'm']);
    assert("g"@ =~= seq!['g']);
    assert("gm"@ =~= seq!['g', 'm']);
}

/// A key with its first letter made uppercase.
pub open spec fn capitalized(k: Seq<char>) -> Seq<char> {
    if k.len() > 0 && 'a' <= k[0] && k[0] <= 'z' {
        k.update(0, ((k[0] as u32) - 32) as char)
    } else {
        k
    }
}

/// Every diagram that ships with the player is reached: its key with the
/// first letter made uppercase is a chord name whose diagram key it is.
pub proof fn law_every_diagram_reached(k: Seq<char>)
    requires
        map_of(asset_table()).contains_key(k),
    ensures
        key_of_name(simplified(capitalized(k))) == Some(k),
{
    lemma_map_of_keys(asset_table(), k);
    let i = choose|i: int| 0 <= i < asset_table().len() && asset_table()[i].0 == k;
    lemma_key_chars();
    lemma_name_chars();
    if i == 0 {
        assert(capitalized(k) =~= "A"@);
        lemma_plain_name("A"@);
    } else if i == 1 {
        assert(capitalized(k) =~= "Ab"@);
        lemma_plain_name("Ab"@);
    } else if i == 2 {
        assert(capitalized(k) =~= "Abm"@);
        lemma_plain_name("Abm"@);
    } else if i == 3 {
        assert(capitalized(k) =~= "Am"@);
        lemma_plain_name("Am"@);
    } else if i == 4 {
        assert(capitalized(k) =~= "B"@);
        lemma_plain_name("B"@);
    } else if i == 5 {
        assert(capitalized(k) =~= "Bb"@);
        lemma_plain_name("Bb"@);
    } else if i == 6 {
        assert(capitalized(k) =~= "Bbm"@);
        lemma_plain_name("Bbm"@);
    } else if i == 7 {
        assert(capitalized(k) =~= "Bm"@);
        lemma_plain_name("Bm"@);
    } else if i == 8 {
        assert(capitalized(k) =~= "C"@);
        lemma_plain_name("C"@);
    } else if i == 9 {
        assert(capitalized(k) =~= "C#"@);
        lemma_plain_name("C#"@);
    } else if i == 10 {
        assert(capitalized(k) =~= "C#m"@);
        lemma_plain_name("C#m"@);
    } else if i == 11 {
        assert(capitalized(k) =~= "Cm"@);
        lemma_plain_name("Cm"@);
    } else if i == 12 {
        assert(capitalized(k) =~= "D"@);
        lemma_plain_name("D"@);
    } else if i == 13 {
        assert(capitalized(k) =~= "Dm"@);
        lemma_plain_name("Dm"@);
    } else if i == 14 {
        assert(capitalized(k) =~= "E"@);
        lemma_plain_name("E"@);
    } else if i == 15 {
        assert(capitalized(k) =~= "Eb"@);
        lemma_plain_name("Eb"@);
    } else if i == 16 {
        assert(capitalized(k) =~= "Ebm"@);
        lemma_plain_name("Ebm"@);
    } else if i == 17 {
        assert(capitalized(k) =~= "Em"@);
        lemma_plain_name("Em"@);
    } else if i == 18 {
        assert(capitalized(k) =~= "F"@);
        lemma_plain_name("F"@);
    } else if i == 19 {
        assert(capitalized(k) =~= "F#m"@);
        lemma_plain_name("F#m"@);
    } else if i == 20 {
        assert(capitalized(k) =~= "Fm"@);
        lemma_plain_name("Fm"@);
    } else if i == 21 {
        assert(capitalized(k) =~= "G"@);
        lemma_plain_name("G"@);
    } else if i == 22 {
        assert(capitalized(k) =~= "Gm"@);
        lemma_plain_name("Gm"@);
    }
}

} // verus!
