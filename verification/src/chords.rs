//! Chord names in the `root:quality/bass` notation of `.lab` files: their
//! root, transposition on the chromatic scale, bass degrees, readable labels
//! and the simplified names under which chord diagrams are filed.

use vstd::prelude::*;
use crate::text::{
    after, before, before_char, copy_str, lemma_find, lemma_find_first, lemma_replace_keeps_absent,
    lemma_replace_suffix, push_str, replace_all, replace_str, split_once_char, starts_with, str_eq,
    str_starts_with,
};

verus! {

broadcast use vstd::string::group_string_axioms;

/// An optional string slice taken by its characters.
pub open spec fn opt_chars(o: Option<&str>) -> Option<Seq<char>> {
    match o {
        Some(s) => Some(s@),
        None => None,
    }
}

/// An optional string taken by its characters.
pub open spec fn opt_string_chars(o: Option<String>) -> Option<Seq<char>> {
    match o {
        Some(s) => Some(s@),
        None => None,
    }
}

// ---------------------------------------------------------------------------
// Root
// ---------------------------------------------------------------------------

/// The root of a chord: what precedes its first `:`, unless that is `N`
/// (no chord).
pub open spec fn root_of(raw: Seq<char>) -> Option<Seq<char>> {
    if before(raw, ':') == "N"@ {
        None
    } else {
        Some(before(raw, ':'))
    }
}

/// The root of the chord `raw`, or `None` for the "no chord" mark `N`.
pub fn chord_root(raw: &str) -> (r: Option<&str>)
    ensures
        opt_chars(r) == root_of(raw@),
{
    let root_part = before_char(raw, ':');
    if str_eq(root_part, "N") {
        None
    } else {
        Some(root_part)
    }
}

// ---------------------------------------------------------------------------
// Chromatic scale
// ---------------------------------------------------------------------------

/// The position on the chromatic scale (C = 0) of a note name, sharps and
/// flats both accepted.
pub open spec fn note_index(root: Seq<char>) -> Option<int> {
    if root == "C"@ {
        Some(0)
    } else if root == "C#"@ || root == "Db"@ {
        Some(1)
    } else if root == "D"@ {
        Some(2)
    } else if root == "D#"@ || root == "Eb"@ {
        Some(3)
    } else if root == "E"@ {
        Some(4)
    } else if root == "F"@ {
        Some(5)
    } else if root == "F#"@ || root == "Gb"@ {
        Some(6)
    } else if root == "G"@ {
        Some(7)
    } else if root == "G#"@ || root == "Ab"@ {
        Some(8)
    } else if root == "A"@ {
        Some(9)
    } else if root == "A#"@ || root == "Bb"@ {
        Some(10)
    } else if root == "B"@ || root == "Cb"@ {
        Some(11)
    } else {
        None
    }
}

/// The name under which position `i` of the chromatic scale is written.
pub open spec fn chromatic_name(i: int) -> Seq<char> {
    if i == 0 {
        "C"@
    } else if i == 1 {
        "C#"@
    } else if i == 2 {
        "D"@
    } else if i == 3 {
        "Eb"@
    } else if i == 4 {
        "E"@
    } else if i == 5 {
        "F"@
    } else if i == 6 {
        "F#"@
    } else if i == 7 {
        "G"@
    } else if i == 8 {
        "Ab"@
    } else if i == 9 {
        "A"@
    } else if i == 10 {
        "Bb"@
    } else {
        "B"@
    }
}

/// The note `semitones` above `root`, written as the chromatic scale writes it.
pub open spec fn transposed(root: Seq<char>, semitones: int) -> Option<Seq<char>> {
    match note_index(root) {
        Some(i) => Some(chromatic_name((i + semitones) % 12)),
        None => None,
    }
}

fn note_index_of(root: &str) -> (r: Option<usize>)
    ensures
        match r {
            Some(i) => note_index(root@) == Some(i as int) && i < 12,
            None => note_index(root@) is None,
        },
{
    if str_eq(root, "C") {
        Some(0)
    } else if str_eq(root, "C#") || str_eq(root, "Db") {
        Some(1)
    } else if str_eq(root, "D") {
        Some(2)
    } else if str_eq(root, "D#") || str_eq(root, "Eb") {
        Some(3)
    } else if str_eq(root, "E") {
        Some(4)
    } else if str_eq(root, "F") {
        Some(5)
    } else if str_eq(root, "F#") || str_eq(root, "Gb") {
        Some(6)
    } else if str_eq(root, "G") {
        Some(7)
    } else if str_eq(root, "G#") || str_eq(root, "Ab") {
        Some(8)
    } else if str_eq(root, "A") {
        Some(9)
    } else if str_eq(root, "A#") || str_eq(root, "Bb") {
        Some(10)
    } else if str_eq(root, "B") || str_eq(root, "Cb") {
        Some(11)
    } else {
        None
    }
}

fn chromatic(i: usize) -> (r: &'static str)
    requires
        i < 12,
    ensures
        r@ == chromatic_name(i as int),
{
    if i == 0 {
        "C"
    } else if i == 1 {
        "C#"
    } else if i == 2 {
        "D"
    } else if i == 3 {
        "Eb"
    } else if i == 4 {
        "E"
    } else if i == 5 {
        "F"
    } else if i == 6 {
        "F#"
    } else if i == 7 {
        "G"
    } else if i == 8 {
        "Ab"
    } else if i == 9 {
        "A"
    } else if i == 10 {
        "Bb"
    } else {
        "B"
    }
}

/// The note `semitones` above `root` on the chromatic scale, or `None` where
/// `root` names no note.
pub fn transpose_note(root: &str, semitones: usize) -> (r: Option<&'static str>)
    requires
        note_index(root@) matches Some(i) ==> i + semitones <= usize::MAX,
    ensures
        opt_chars(r) == transposed(root@, semitones as int),
{
    match note_index_of(root) {
        Some(idx) => Some(chromatic((idx + semitones) % 12)),
        None => None,
    }
}

// ---------------------------------------------------------------------------
// Bass degrees
// ---------------------------------------------------------------------------

/// The number of semitones above the root that a bass degree other than `1`
/// names.
pub open spec fn degree_semitones(bass: Seq<char>) -> Option<int> {
    if bass == "b2"@ {
        Some(1)
    } else if bass == "2"@ {
        Some(2)
    } else if bass == "b3"@ {
        Some(3)
    } else if bass == "3"@ {
        Some(4)
    } else if bass == "4"@ {
        Some(5)
    } else if bass == "b5"@ {
        Some(6)
    } else if bass == "5"@ {
        Some(7)
    } else if bass == "#5"@ || bass == "b6"@ {
        Some(8)
    } else if bass == "6"@ {
        Some(9)
    } else if bass == "b7"@ {
        Some(10)
    } else if bass == "7"@ {
        Some(11)
    } else {
        None
    }
}

/// The note that the bass degree `bass` names over the root of `raw`: the
/// root itself as written for `1`, else the transposed root.
pub open spec fn bass_note(raw: Seq<char>, bass: Seq<char>) -> Option<Seq<char>> {
    match root_of(raw) {
        None => None,
        Some(root) => if bass == "1"@ {
            Some(root)
        } else {
            match degree_semitones(bass) {
                Some(n) => transposed(root, n),
                None => None,
            }
        },
    }
}

fn degree_semitones_of(bass: &str) -> (r: Option<usize>)
    ensures
        match r {
            Some(n) => degree_semitones(bass@) == Some(n as int) && n < 12,
            None => degree_semitones(bass@) is None,
        },
{
    if str_eq(bass, "b2") {
        Some(1)
    } else if str_eq(bass, "2") {
        Some(2)
    } else if str_eq(bass, "b3") {
        Some(3)
    } else if str_eq(bass, "3") {
        Some(4)
    } else if str_eq(bass, "4") {
        Some(5)
    } else if str_eq(bass, "b5") {
        Some(6)
    } else if str_eq(bass, "5") {
        Some(7)
    } else if str_eq(bass, "#5") || str_eq(bass, "b6") {
        Some(8)
    } else if str_eq(bass, "6") {
        Some(9)
    } else if str_eq(bass, "b7") {
        Some(10)
    } else if str_eq(bass, "7") {
        Some(11)
    } else {
        None
    }
}

/// The note named by the bass degree `bass` (such as `b3` or `5`) of the
/// chord `raw`, or `None` where `raw` has no root, or `bass` is no degree,
/// or the root names no note.
pub fn bass_degree_to_note(raw: &str, bass: &str) -> (r: Option<String>)
    ensures
        opt_string_chars(r) == bass_note(raw@, bass@),
{
    let root = match chord_root(raw) {
        Some(root) => root,
        None => return None,
    };
    if str_eq(bass, "1") {
        return Some(copy_str(root));
    }
    match degree_semitones_of(bass) {
        Some(n) => match transpose_note(root, n) {
            Some(note) => Some(copy_str(note)),
            None => None,
        },
        None => None,
    }
}

// ---------------------------------------------------------------------------
// Labels
// ---------------------------------------------------------------------------

/// A chord name with `:maj` dropped and `:min` written `m`.
pub open spec fn short_name(raw: Seq<char>) -> Seq<char> {
    replace_all(replace_all(raw, ":maj"@, ""@), ":min"@, "m"@)
}

/// The readable label of a chord: `No chord` for `N`; else its short name,
/// where a `/bass` degree is replaced by the note that it names (kept as it
/// stands where it names none).
pub open spec fn chord_label(raw: Seq<char>) -> Seq<char> {
    if raw == "N"@ {
        "No chord"@
    } else {
        let label = short_name(raw);
        match after(label, '/') {
            Some(bass) => {
                let note = match bass_note(raw, bass) {
                    Some(n) => n,
                    None => bass,
                };
                before(label, '/') + seq!['/'] + note
            },
            None => label,
        }
    }
}

/// The readable label of the chord `raw`, such as `Am/C` for `A:min/b3`.
pub fn pretty_chord_label(raw: &str) -> (r: String)
    ensures
        r@ == chord_label(raw@),
{
    if str_eq(raw, "N") {
        return copy_str("No chord");
    }
    proof {
        reveal_strlit(":maj");
        reveal_strlit(":min");
    }
    let without_maj = replace_str(raw, ":maj", "");
    let label = replace_str(without_maj.as_str(), ":min", "m");
    match split_once_char(label.as_str(), '/') {
        Some((base, bass)) => {
            let note = match bass_degree_to_note(raw, bass) {
                Some(n) => n,
                None => copy_str(bass),
            };
            let mut out = copy_str(base);
            out.push('/');
            push_str(&mut out, note.as_str());
            out
        },
        None => label,
    }
}

// ---------------------------------------------------------------------------
// Diagram names
// ---------------------------------------------------------------------------

/// `str::to_lowercase`: the lowercase form of a string by the Unicode
/// `Lowercase` mapping.
pub uninterp spec fn lowercase(s: Seq<char>) -> Seq<char>;

/// All characters of `s` are ASCII.
pub open spec fn is_ascii_text(s: Seq<char>) -> bool {
    forall|i: int| 0 <= i < s.len() ==> s[i] <= '\u{7f}'
}

/// `c` with `A`-`Z` made `a`-`z`; any other character unchanged.
pub open spec fn ascii_lower_char(c: char) -> char {
    if 'A' <= c && c <= 'Z' {
        ((c as u32) + 32) as char
    } else {
        c
    }
}

/// The ASCII lowercase of `s`, character by character.
pub open spec fn ascii_lowercase(s: Seq<char>) -> Seq<char> {
    s.map_values(|c: char| ascii_lower_char(c))
}

/// `str::to_lowercase` gives the string that `lowercase` names; on ASCII
/// text, where the Unicode mapping lowers `A`-`Z` to `a`-`z` and keeps every
/// other character, that is the ASCII lowercase.
pub assume_specification[ str::to_lowercase ](s: &str) -> (res: String)
    ensures
        res@ == lowercase(s@),
        is_ascii_text(s@) ==> res@ == ascii_lowercase(s@),
;

/// The lowercase form of a quality: its ASCII lowercase where it is ASCII,
/// else what `str::to_lowercase` gives.
pub open spec fn lowered(q: Seq<char>) -> Seq<char> {
    if is_ascii_text(q) {
        ascii_lowercase(q)
    } else {
        lowercase(q)
    }
}

/// The quality of a chord: what follows the first `:` of the part before any
/// `/`, up to the next `:`; `maj` where there is no `:`.
pub open spec fn quality_of(raw: Seq<char>) -> Seq<char> {
    match after(before(raw, '/'), ':') {
        Some(rest) => before(rest, ':'),
        None => "maj"@,
    }
}

/// The diagram name for a root and a lowercased quality: the root with `m`
/// added where the quality is of the minor family (begins with `min`).
pub open spec fn asset_name(root: Seq<char>, lowered_quality: Seq<char>) -> Seq<char> {
    if starts_with(lowered_quality, "min"@) {
        root + "m"@
    } else {
        root
    }
}

/// The name under which the diagram of chord `raw` is filed: `N` for `N`,
/// else its root, with `m` added for the minor family.
pub open spec fn simplified(raw: Seq<char>) -> Seq<char> {
    if raw == "N"@ {
        "N"@
    } else {
        asset_name(before(before(raw, '/'), ':'), lowered(quality_of(raw)))
    }
}

/// The diagram name for `root` and the lowercased quality `lowered_quality`.
pub fn asset_name_from(root: &str, lowered_quality: &str) -> (r: String)
    ensures
        r@ == asset_name(root@, lowered_quality@),
{
    if str_starts_with(lowered_quality, "min") {
        let mut out = copy_str(root);
        push_str(&mut out, "m");
        out
    } else {
        copy_str(root)
    }
}

/// The name under which the diagram of chord `raw` is filed, such as `Am`
/// for `A:min7/b3`.
pub fn simplify_for_asset(raw: &str) -> (r: String)
    ensures
        r@ == simplified(raw@),
{
    if str_eq(raw, "N") {
        return copy_str("N");
    }
    let base = before_char(raw, '/');
    let root = before_char(base, ':');
    let quality = match split_once_char(base, ':') {
        Some((_, rest)) => before_char(rest, ':'),
        None => "maj",
    };
    let lowered = quality.to_lowercase();
    asset_name_from(root, lowered.as_str())
}

/// The diagram key of a diagram name, where one is drawn.
pub open spec fn key_of_name(name: Seq<char>) -> Option<Seq<char>> {
    if name == "A"@ {
        Some("a"@)
    } else if name == "Ab"@ || name == "G#"@ {
        Some("ab"@)
    } else if name == "Abm"@ || name == "G#m"@ {
        Some("abm"@)
    } else if name == "Am"@ {
        Some("am"@)
    } else if name == "B"@ {
        Some("b"@)
    } else if name == "Bb"@ || name == "A#"@ {
        Some("bb"@)
    } else if name == "Bbm"@ || name == "A#m"@ {
        Some("bbm"@)
    } else if name == "Bm"@ {
        Some("bm"@)
    } else if name == "C"@ {
        Some("c"@)
    } else if name == "C#"@ || name == "Db"@ {
        Some("c#"@)
    } else if name == "C#m"@ || name == "Dbm"@ {
        Some("c#m"@)
    } else if name == "Cm"@ {
        Some("cm"@)
    } else if name == "D"@ {
        Some("d"@)
    } else if name == "Dm"@ {
        Some("dm"@)
    } else if name == "E"@ {
        Some("e"@)
    } else if name == "Eb"@ || name == "D#"@ {
        Some("eb"@)
    } else if name == "Ebm"@ || name == "D#m"@ {
        Some("ebm"@)
    } else if name == "Em"@ {
        Some("em"@)
    } else if name == "F"@ {
        Some("f"@)
    } else if name == "F#m"@ || name == "Gbm"@ {
        Some("f#m"@)
    } else if name == "Fm"@ {
        Some("fm"@)
    } else if name == "G"@ {
        Some("g"@)
    } else if name == "Gm"@ {
        Some("gm"@)
    } else {
        None
    }
}

/// The diagram key for the diagram name `name`.
pub fn key_for_name(name: &str) -> (r: Option<&'static str>)
    ensures
        opt_chars(r) == key_of_name(name@),
{
    if str_eq(name, "A") {
        Some("a")
    } else if str_eq(name, "Ab") || str_eq(name, "G#") {
        Some("ab")
    } else if str_eq(name, "Abm") || str_eq(name, "G#m") {
        Some("abm")
    } else if str_eq(name, "Am") {
        Some("am")
    } else if str_eq(name, "B") {
        Some("b")
    } else if str_eq(name, "Bb") || str_eq(name, "A#") {
        Some("bb")
    } else if str_eq(name, "Bbm") || str_eq(name, "A#m") {
        Some("bbm")
    } else if str_eq(name, "Bm") {
        Some("bm")
    } else if str_eq(name, "C") {
        Some("c")
    } else if str_eq(name, "C#") || str_eq(name, "Db") {
        Some("c#")
    } else if str_eq(name, "C#m") || str_eq(name, "Dbm") {
        Some("c#m")
    } else if str_eq(name, "Cm") {
        Some("cm")
    } else if str_eq(name, "D") {
        Some("d")
    } else if str_eq(name, "Dm") {
        Some("dm")
    } else if str_eq(name, "E") {
        Some("e")
    } else if str_eq(name, "Eb") || str_eq(name, "D#") {
        Some("eb")
    } else if str_eq(name, "Ebm") || str_eq(name, "D#m") {
        Some("ebm")
    } else if str_eq(name, "Em") {
        Some("em")
    } else if str_eq(name, "F") {
        Some("f")
    } else if str_eq(name, "F#m") || str_eq(name, "Gbm") {
        Some("f#m")
    } else if str_eq(name, "Fm") {
        Some("fm")
    } else if str_eq(name, "G") {
        Some("g")
    } else if str_eq(name, "Gm") {
        Some("gm")
    } else {
        None
    }
}

/// The key of the chord diagram for chord `raw`, where one is drawn.
pub fn chord_asset_key(raw: &str) -> (r: Option<&'static str>)
    ensures
        opt_chars(r) == key_of_name(simplified(raw@)),
{
    let simplified_name = simplify_for_asset(raw);
    key_for_name(simplified_name.as_str())
}


// ---------------------------------------------------------------------------
// Laws
// ---------------------------------------------------------------------------

/// Each name of the chromatic scale names the position it is written for.
pub proof fn lemma_note_index_of_chromatic(k: int)
    requires
        0 <= k < 12,
    ensures
        note_index(chromatic_name(k)) == Some(k),
{
    lemma_name_chars();
    let n = chromatic_name(k);
    // Names are told apart by their first character (and then their length).
    assert(n.len() > 0 && n[0] == n.first());
}

/// Transposing a note by `a` semitones and the result by `b` semitones gives
/// the note `a + b` semitones above the first.
pub proof fn law_transpose_composes(root: Seq<char>, a: nat, b: nat)
    requires
        transposed(root, a as int) is Some,
    ensures
        transposed(transposed(root, a as int)->0, b as int) == transposed(root, (a + b) as int),
{
    let i = note_index(root)->0;
    let k = (i + a) % 12;
    lemma_note_index_of_chromatic(k);
    lemma_mod_shift(i + a, b as int);
    assert(transposed(chromatic_name(k), b as int) == Some(chromatic_name((k + b) % 12)));
}

/// Adding to a residue modulo 12 is adding to the number.
proof fn lemma_mod_shift(x: int, b: int)
    requires
        x >= 0,
        b >= 0,
    ensures
        ((x % 12) + b) % 12 == (x + b) % 12,
{
    vstd::arithmetic::div_mod::lemma_add_mod_noop(x, b, 12);
    vstd::arithmetic::div_mod::lemma_mod_twice(x, 12);
    vstd::arithmetic::div_mod::lemma_add_mod_noop(x % 12, b, 12);
    vstd::arithmetic::div_mod::lemma_mod_twice(b, 12);
}

/// A diagram name never holds `:` or `/`.
pub proof fn law_diagram_name_plain(raw: Seq<char>)
    ensures
        forall|j: int|
            0 <= j < simplified(raw).len() ==> simplified(raw)[j] != ':' && simplified(raw)[j]
                != '/',
{
    reveal_strlit("N");
    reveal_strlit("m");
    if raw != "N"@ {
        let base = before(raw, '/');
        let root = before(base, ':');
        lemma_find(raw, '/');
        lemma_find(base, ':');
        assert forall|j: int| 0 <= j < base.len() implies base[j] != '/' by {}
        assert forall|j: int| 0 <= j < root.len() implies root[j] != ':' && root[j] != '/' by {
            assert(root[j] == base[j]);
        }
        let name = simplified(raw);
        assert forall|j: int| 0 <= j < name.len() implies name[j] != ':' && name[j] != '/' by {
            if j >= root.len() {
                assert(name[j] == 'm');
            } else {
                assert(name[j] == root[j]);
            }
        }
    }
}

/// The characters of the note and diagram names.
pub proof fn lemma_name_chars()
    ensures
        "A"@ == seq!['A'],
        "A#"@ == seq!['A', '#'],
        "A#m"@ == seq!['A', '#', 'm'],
        "Ab"@ == seq!['A', 'b'],
        "Abm"@ == seq!['A', 'b', 'm'],
        "Am"@ == seq!['A', 'm'],
        "B"@ == seq!['B'],
        "Bb"@ == seq!['B', 'b'],
        "Bbm"@ == seq!['B', 'b', 'm'],
        "Bm"@ == seq!['B', 'm'],
        "C"@ == seq!['C'],
        "C#"@ == seq!['C', '#'],
        "C#m"@ == seq!['C', '#', 'm'],
        "Cb"@ == seq!['C', 'b'],
        "Cm"@ == seq!['C', 'm'],
        "D"@ == seq!['D'],
        "D#"@ == seq!['D', '#'],
        "D#m"@ == seq!['D', '#', 'm'],
        "Db"@ == seq!['D', 'b'],
        "Dbm"@ == seq!['D', 'b', 'm'],
        "Dm"@ == seq!['D', 'm'],
        "E"@ == seq!['E'],
        "Eb"@ == seq!['E', 'b'],
        "Ebm"@ == seq!['E', 'b', 'm'],
        "Em"@ == seq!['E', 'm'],
        "F"@ == seq!['F'],
        "F#"@ == seq!['F', '#'],
        "F#m"@ == seq!['F', '#', 'm'],
        "Fm"@ == seq!['F', 'm'],
        "G"@ == seq!['G'],
        "G#"@ == seq!['G', '#'],
        "G#m"@ == seq!['G', '#', 'm'],
        "Gb"@ == seq!['G', 'b'],
        "Gbm"@ == seq!['G', 'b', 'm'],
        "Gm"@ == seq!['G', 'm'],
        "N"@ == seq!['N'],
        "m"@ == seq!['m'],
        "maj"@ == seq!['m', 'a', 'j'],
        "min"@ == seq!['m', 'i', 'n'],
{
    reveal_strlit("A");
    reveal_strlit("A#");
    reveal_strlit("A#m");
    reveal_strlit("Ab");
    reveal_strlit("Abm");
    reveal_strlit("Am");
    reveal_strlit("B");
    reveal_strlit("Bb");
    reveal_strlit("Bbm");
    reveal_strlit("Bm");
    reveal_strlit("C");
    reveal_strlit("C#");
    reveal_strlit("C#m");
    reveal_strlit("Cb");
    reveal_strlit("Cm");
    reveal_strlit("D");
    reveal_strlit("D#");
    reveal_strlit("D#m");
    reveal_strlit("Db");
    reveal_strlit("Dbm");
    reveal_strlit("Dm");
    reveal_strlit("E");
    reveal_strlit("Eb");
    reveal_strlit("Ebm");
    reveal_strlit("Em");
    reveal_strlit("F");
    reveal_strlit("F#");
    reveal_strlit("F#m");
    reveal_strlit("Fm");
    reveal_strlit("G");
    reveal_strlit("G#");
    reveal_strlit("G#m");
    reveal_strlit("Gb");
    reveal_strlit("Gbm");
    reveal_strlit("Gm");
    reveal_strlit("N");
    reveal_strlit("m");
    reveal_strlit("maj");
    reveal_strlit("min");
    assert("A"@ =~= seq!['A']);
    assert("A#"@ =~= seq!['A', '#']);
    assert("A#m"@ =~= seq!['A', '#', 'm']);
    assert("Ab"@ =~= seq!['A', 'b']);
    assert("Abm"@ =~= seq!['A', 'b', 'm']);
    assert("Am"@ =~= seq!['A', 'm']);
    assert("B"@ =~= seq!['B']);
    assert("Bb"@ =~= seq!['B', 'b']);
    assert("Bbm"@ =~= seq!['B', 'b', 'm']);
    assert("Bm"@ =~= seq!['B', 'm']);
    assert("C"@ =~= seq!['C']);
    assert("C#"@ =~= seq!['C', '#']);
    assert("C#m"@ =~= seq!['C', '#', 'm']);
    assert("Cb"@ =~= seq!['C', 'b']);
    assert("Cm"@ =~= seq!['C', 'm']);
    assert("D"@ =~= seq!['D']);
    assert("D#"@ =~= seq!['D', '#']);
    assert("D#m"@ =~= seq!['D', '#', 'm']);
    assert("Db"@ =~= seq!['D', 'b']);
    assert("Dbm"@ =~= seq!['D', 'b', 'm']);
    assert("Dm"@ =~= seq!['D', 'm']);
    assert("E"@ =~= seq!['E']);
    assert("Eb"@ =~= seq!['E', 'b']);
    assert("Ebm"@ =~= seq!['E', 'b', 'm']);
    assert("Em"@ =~= seq!['E', 'm']);
    assert("F"@ =~= seq!['F']);
    assert("F#"@ =~= seq!['F', '#']);
    assert("F#m"@ =~= seq!['F', '#', 'm']);
    assert("Fm"@ =~= seq!['F', 'm']);
    assert("G"@ =~= seq!['G']);
    assert("G#"@ =~= seq!['G', '#']);
    assert("G#m"@ =~= seq!['G', '#', 'm']);
    assert("Gb"@ =~= seq!['G', 'b']);
    assert("Gbm"@ =~= seq!['G', 'b', 'm']);
    assert("Gm"@ =~= seq!['G', 'm']);
    assert("N"@ =~= seq!['N']);
    assert("m"@ =~= seq!['m']);
    assert("maj"@ =~= seq!['m', 'a', 'j']);
    assert("min"@ =~= seq!['m', 'i', 'n']);
}


/// A chord name with neither `:` nor `/`, other than `N`, is its own
/// diagram name.
pub proof fn lemma_plain_name(raw: Seq<char>)
    requires
        raw != "N"@,
        forall|j: int| 0 <= j < raw.len() ==> raw[j] != ':' && raw[j] != '/',
    ensures
        simplified(raw) == raw,
{
    reveal_strlit("maj");
    reveal_strlit("min");
    lemma_find(raw, '/');
    lemma_find(raw, ':');
    let q = "maj"@;
    assert(ascii_lowercase(q) =~= q);
    assert(q.take(3)[1] != "min"@[1]);
}

/// The diagram name of `root:q`, for a root and a quality that hold neither
/// `:` nor `/`, is the root, with `m` where the lowered quality begins with
/// `min`.
pub proof fn lemma_qualified_name(root: Seq<char>, q: Seq<char>)
    requires
        forall|j: int| 0 <= j < root.len() ==> root[j] != ':' && root[j] != '/',
        forall|j: int| 0 <= j < q.len() ==> q[j] != ':' && q[j] != '/',
    ensures
        simplified(root + seq![':'] + q) == asset_name(root, lowered(q)),
{
    reveal_strlit("N");
    let raw = root + seq![':'] + q;
    let n = root.len() as int;
    assert(raw[n] == ':');
    assert(raw != "N"@) by {
        if raw.len() == 1 {
            assert(raw[0] == ':');
        }
    }
    assert forall|j: int| 0 <= j < raw.len() implies raw[j] != '/' by {
        if j < n {
            assert(raw[j] == root[j]);
        } else if j > n {
            assert(raw[j] == q[j - n - 1]);
        }
    }
    lemma_find(raw, '/');
    assert forall|j: int| 0 <= j < n implies raw[j] != ':' by {
        assert(raw[j] == root[j]);
    }
    lemma_find_first(raw, ':', n);
    assert(raw.take(n) =~= root);
    assert(raw.skip(n + 1) =~= q);
    lemma_find(q, ':');
}

/// The diagram key of each spelling of a root, major or minor, is that of
/// the root as the chromatic scale writes it (`Cb` excepted).
proof fn lemma_spelling_keys(x: Seq<char>)
    requires
        note_index(x) is Some,
        x != "Cb"@,
    ensures
        key_of_name(x) == key_of_name(chromatic_name(note_index(x)->0)),
        key_of_name(x + "m"@) == key_of_name(chromatic_name(note_index(x)->0) + "m"@),
{
    lemma_name_chars();
    if x == "C"@ {
        assert(x + "m"@ =~= "Cm"@);
        assert(chromatic_name(0) + "m"@ =~= "Cm"@);
    } else if x == "C#"@ {
        assert(x + "m"@ =~= "C#m"@);
        assert(chromatic_name(1) + "m"@ =~= "C#m"@);
    } else if x == "Db"@ {
        assert(x + "m"@ =~= "Dbm"@);
        assert(chromatic_name(1) + "m"@ =~= "C#m"@);
    } else if x == "D"@ {
        assert(x + "m"@ =~= "Dm"@);
        assert(chromatic_name(2) + "m"@ =~= "Dm"@);
    } else if x == "D#"@ {
        assert(x + "m"@ =~= "D#m"@);
        assert(chromatic_name(3) + "m"@ =~= "Ebm"@);
    } else if x == "Eb"@ {
        assert(x + "m"@ =~= "Ebm"@);
        assert(chromatic_name(3) + "m"@ =~= "Ebm"@);
    } else if x == "E"@ {
        assert(x + "m"@ =~= "Em"@);
        assert(chromatic_name(4) + "m"@ =~= "Em"@);
    } else if x == "F"@ {
        assert(x + "m"@ =~= "Fm"@);
        assert(chromatic_name(5) + "m"@ =~= "Fm"@);
    } else if x == "F#"@ {
        assert(x + "m"@ =~= "F#m"@);
        assert(chromatic_name(6) + "m"@ =~= "F#m"@);
    } else if x == "Gb"@ {
        assert(x + "m"@ =~= "Gbm"@);
        assert(chromatic_name(6) + "m"@ =~= "F#m"@);
    } else if x == "G"@ {
        assert(x + "m"@ =~= "Gm"@);
        assert(chromatic_name(7) + "m"@ =~= "Gm"@);
    } else if x == "G#"@ {
        assert(x + "m"@ =~= "G#m"@);
        assert(chromatic_name(8) + "m"@ =~= "Abm"@);
    } else if x == "Ab"@ {
        assert(x + "m"@ =~= "Abm"@);
        assert(chromatic_name(8) + "m"@ =~= "Abm"@);
    } else if x == "A"@ {
        assert(x + "m"@ =~= "Am"@);
        assert(chromatic_name(9) + "m"@ =~= "Am"@);
    } else if x == "A#"@ {
        assert(x + "m"@ =~= "A#m"@);
        assert(chromatic_name(10) + "m"@ =~= "Bbm"@);
    } else if x == "Bb"@ {
        assert(x + "m"@ =~= "Bbm"@);
        assert(chromatic_name(10) + "m"@ =~= "Bbm"@);
    } else if x == "B"@ {
        assert(x + "m"@ =~= "Bm"@);
        assert(chromatic_name(11) + "m"@ =~= "Bm"@);
    }
}

/// Which names of the chromatic scale have a diagram: every minor chord, and
/// every major chord but `F#`.
proof fn lemma_chromatic_keys(i: int)
    requires
        0 <= i < 12,
    ensures
        key_of_name(chromatic_name(i) + "m"@) is Some,
        key_of_name(chromatic_name(i)) is Some <==> chromatic_name(i) != "F#"@,
{
    lemma_name_chars();
    if i == 0 {
        assert(chromatic_name(0) + "m"@ =~= "Cm"@);
    } else if i == 1 {
        assert(chromatic_name(1) + "m"@ =~= "C#m"@);
    } else if i == 2 {
        assert(chromatic_name(2) + "m"@ =~= "Dm"@);
    } else if i == 3 {
        assert(chromatic_name(3) + "m"@ =~= "Ebm"@);
    } else if i == 4 {
        assert(chromatic_name(4) + "m"@ =~= "Em"@);
    } else if i == 5 {
        assert(chromatic_name(5) + "m"@ =~= "Fm"@);
    } else if i == 6 {
        assert(chromatic_name(6) + "m"@ =~= "F#m"@);
    } else if i == 7 {
        assert(chromatic_name(7) + "m"@ =~= "Gm"@);
    } else if i == 8 {
        assert(chromatic_name(8) + "m"@ =~= "Abm"@);
    } else if i == 9 {
        assert(chromatic_name(9) + "m"@ =~= "Am"@);
    } else if i == 10 {
        assert(chromatic_name(10) + "m"@ =~= "Bbm"@);
    } else if i == 11 {
        assert(chromatic_name(11) + "m"@ =~= "Bm"@);
    }
}

/// Lowering `maj` and `min` keeps them as they are.
proof fn lemma_lowered_qualities()
    ensures
        lowered("maj"@) == "maj"@,
        lowered("min"@) == "min"@,
        asset_name(seq![], "maj"@) == Seq::<char>::empty(),
        forall|root: Seq<char>| asset_name(root, "maj"@) == root,
        forall|root: Seq<char>| asset_name(root, "min"@) == root + "m"@,
{
    reveal_strlit("maj");
    reveal_strlit("min");
    assert(ascii_lowercase("maj"@) =~= "maj"@);
    assert(ascii_lowercase("min"@) =~= "min"@);
    assert("maj"@.take(3)[1] != "min"@[1]);
    assert("min"@.take(3) =~= "min"@);
}

/// Enharmonic spellings share a diagram: the chord `x:q`, for a note `x`
/// other than `Cb` and a quality `maj` or `min`, has the diagram key of the
/// same chord on the root as the chromatic scale writes it.
pub proof fn law_enharmonic_spellings_share_key(x: Seq<char>, q: Seq<char>)
    requires
        note_index(x) is Some,
        x != "Cb"@,
        q == "maj"@ || q == "min"@,
    ensures
        key_of_name(simplified(x + seq![':'] + q)) == key_of_name(
            simplified(chromatic_name(note_index(x)->0) + seq![':'] + q),
        ),
{
    let y = chromatic_name(note_index(x)->0);
    lemma_name_chars();
    assert(forall|j: int| 0 <= j < x.len() ==> x[j] != ':' && x[j] != '/');
    assert(forall|j: int| 0 <= j < y.len() ==> y[j] != ':' && y[j] != '/');
    assert(forall|j: int| 0 <= j < q.len() ==> q[j] != ':' && q[j] != '/');
    lemma_qualified_name(x, q);
    lemma_qualified_name(y, q);
    lemma_lowered_qualities();
    lemma_spelling_keys(x);
}

/// Every minor chord on a note of the chromatic scale has a diagram, and
/// every major chord but `F#:maj`.
pub proof fn law_chromatic_chords_have_keys(i: int)
    requires
        0 <= i < 12,
    ensures
        key_of_name(simplified(chromatic_name(i) + seq![':'] + "min"@)) is Some,
        key_of_name(simplified(chromatic_name(i) + seq![':'] + "maj"@)) is Some <==> chromatic_name(i)
            != "F#"@,
{
    let y = chromatic_name(i);
    lemma_name_chars();
    reveal_strlit("maj");
    reveal_strlit("min");
    assert(forall|j: int| 0 <= j < y.len() ==> y[j] != ':' && y[j] != '/');
    lemma_qualified_name(y, "maj"@);
    lemma_qualified_name(y, "min"@);
    lemma_lowered_qualities();
    lemma_chromatic_keys(i);
}


/// The characters of the bass degrees and of the quality marks.
pub proof fn lemma_degree_chars()
    ensures
        "1"@ == seq!['1'],
        "b2"@ == seq!['b', '2'],
        "2"@ == seq!['2'],
        "b3"@ == seq!['b', '3'],
        "3"@ == seq!['3'],
        "4"@ == seq!['4'],
        "b5"@ == seq!['b', '5'],
        "5"@ == seq!['5'],
        "#5"@ == seq!['#', '5'],
        "b6"@ == seq!['b', '6'],
        "6"@ == seq!['6'],
        "b7"@ == seq!['b', '7'],
        "7"@ == seq!['7'],
        ":maj"@ == seq![':', 'm', 'a', 'j'],
        ":min"@ == seq![':', 'm', 'i', 'n'],
        "m"@ == seq!['m'],
        ""@ == Seq::<char>::empty(),
{
    reveal_strlit("1");
    reveal_strlit("b2");
    reveal_strlit("2");
    reveal_strlit("b3");
    reveal_strlit("3");
    reveal_strlit("4");
    reveal_strlit("b5");
    reveal_strlit("5");
    reveal_strlit("#5");
    reveal_strlit("b6");
    reveal_strlit("6");
    reveal_strlit("b7");
    reveal_strlit("7");
    reveal_strlit(":maj");
    reveal_strlit(":min");
    reveal_strlit("m");
    reveal_strlit("");
    assert("1"@ =~= seq!['1']);
    assert("b2"@ =~= seq!['b', '2']);
    assert("2"@ =~= seq!['2']);
    assert("b3"@ =~= seq!['b', '3']);
    assert("3"@ =~= seq!['3']);
    assert("4"@ =~= seq!['4']);
    assert("b5"@ =~= seq!['b', '5']);
    assert("5"@ =~= seq!['5']);
    assert("#5"@ =~= seq!['#', '5']);
    assert("b6"@ =~= seq!['b', '6']);
    assert("6"@ =~= seq!['6']);
    assert("b7"@ =~= seq!['b', '7']);
    assert("7"@ =~= seq!['7']);
    assert(":maj"@ =~= seq![':', 'm', 'a', 'j']);
    assert(":min"@ =~= seq![':', 'm', 'i', 'n']);
    assert("m"@ =~= seq!['m']);
    assert(""@ =~= Seq::<char>::empty());
}

/// A note name holds neither `:` nor `/`, and is not `N`.
proof fn lemma_note_name_plain(r: Seq<char>)
    requires
        note_index(r) is Some,
    ensures
        forall|j: int| 0 <= j < r.len() ==> r[j] != ':' && r[j] != '/',
        r != "N"@,
        r.len() > 0,
{
    lemma_name_chars();
    assert(r.len() > 0 && r[0] == r.first());
    assert("N"@[0] == 'N');
}

/// A bass degree holds neither `:` nor `/`, and the degrees other than `1`
/// are not `1`.
proof fn lemma_degree_plain(d: Seq<char>)
    requires
        degree_semitones(d) is Some,
    ensures
        forall|j: int| 0 <= j < d.len() ==> d[j] != ':' && d[j] != '/',
        d != "1"@,
{
    lemma_degree_chars();
    assert(d.len() > 0 && d[0] == d.first());
}

/// The bass note of a degree other than `1` is the chord's whole root (what
/// precedes its first `:`) raised by the degree's semitones: its place on the
/// chromatic scale is the root's place plus those semitones, modulo 12.
pub proof fn law_bass_note_raises_root(raw: Seq<char>, d: Seq<char>)
    requires
        note_index(before(raw, ':')) is Some,
        degree_semitones(d) is Some,
    ensures
        bass_note(raw, d) is Some,
        note_index(bass_note(raw, d)->0) == Some(
            (note_index(before(raw, ':'))->0 + degree_semitones(d)->0) % 12,
        ),
{
    let r = before(raw, ':');
    lemma_note_name_plain(r);
    lemma_degree_plain(d);
    let i = note_index(r)->0;
    let n = degree_semitones(d)->0;
    assert(0 <= (i + n) % 12 < 12);
    lemma_note_index_of_chromatic((i + n) % 12);
}

/// The bass degree `1` names the chord's root as written.
pub proof fn law_bass_one_is_root(raw: Seq<char>)
    requires
        before(raw, ':') != "N"@,
    ensures
        bass_note(raw, "1"@) == Some(before(raw, ':')),
{
}

/// The label of `r:q/d`, for a note `r`, a quality `q` without `:` or `/`
/// and a bass degree `d` other than `1`, is the short name of `r:q`, a `/`,
/// and the note `d` names over the whole root `r`: the one whose place on the
/// chromatic scale is `r`'s plus the degree's semitones, modulo 12.
pub proof fn law_label_names_bass(r: Seq<char>, q: Seq<char>, d: Seq<char>)
    requires
        note_index(r) is Some,
        forall|j: int| 0 <= j < q.len() ==> q[j] != ':' && q[j] != '/',
        degree_semitones(d) is Some,
    ensures
        ({
            let head = short_name(r + seq![':'] + q);
            let label = chord_label(r + seq![':'] + q + seq!['/'] + d);
            &&& label.len() > head.len()
            &&& label == head + seq!['/'] + label.skip(head.len() + 1int)
            &&& note_index(label.skip(head.len() + 1int)) == Some(
                (note_index(r)->0 + degree_semitones(d)->0) % 12,
            )
        }),
{
    lemma_note_name_plain(r);
    lemma_degree_plain(d);
    lemma_degree_chars();
    lemma_name_chars();
    let a = r + seq![':'] + q;
    let tail = seq!['/'] + d;
    let raw = a + tail;
    assert(raw == r + seq![':'] + q + seq!['/'] + d);
    // The root is what precedes the first `:`.
    let n = r.len() as int;
    assert(raw[n] == ':');
    assert forall|j: int| 0 <= j < n implies raw[j] != ':' by {
        assert(raw[j] == r[j]);
    }
    lemma_find_first(raw, ':', n);
    assert(raw.take(n) =~= r);
    assert(raw != "N"@) by {
        assert(raw.len() > 1);
    }
    // The quality marks are replaced in `r:q` alone.
    assert forall|j: int| 0 <= j < tail.len() implies tail[j] != ':' by {
        if j > 0 {
            assert(tail[j] == d[j - 1]);
        }
    }
    lemma_replace_suffix(a, tail, ":maj"@, ""@);
    let a1 = replace_all(a, ":maj"@, ""@);
    lemma_replace_suffix(a1, tail, ":min"@, "m"@);
    let head = short_name(a);
    assert(short_name(raw) == head + tail);
    // `r:q` holds no `/`, and neither does its short name.
    assert forall|j: int| 0 <= j < a.len() implies a[j] != '/' by {
        if j < n {
            assert(a[j] == r[j]);
        } else if j > n {
            assert(a[j] == q[j - n - 1]);
        }
    }
    lemma_replace_keeps_absent(a, ":maj"@, ""@, '/');
    lemma_replace_keeps_absent(a1, ":min"@, "m"@, '/');
    let label = head + tail;
    assert(label[head.len() as int] == '/');
    assert forall|j: int| 0 <= j < head.len() implies label[j] != '/' by {
        assert(label[j] == head[j]);
    }
    lemma_find_first(label, '/', head.len() as int);
    assert(label.take(head.len() as int) =~= head);
    assert(label.skip(head.len() + 1int) =~= d);
    law_bass_note_raises_root(raw, d);
    let x = bass_note(raw, d)->0;
    assert(chord_label(raw) == head + seq!['/'] + x);
    assert((head + seq!['/'] + x).skip(head.len() + 1int) =~= x);
}

} // verus!
