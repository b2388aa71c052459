//! What the host last wrote to the LEDs of one page.

use std::collections::HashMap;
use vstd::prelude::*;

use crate::config::ButtonRef;
use crate::midi::sysex_lighting::ColorSpec;

verus! {

/// One LED's last-known state.
#[derive(Debug, Clone, Copy, PartialEq, Eq, Structural)]
pub enum LedCell {
    NoteOn { channel: u8, velocity: u8 },
    Cc { channel: u8, value: u8 },
    SysexColor(ColorSpec),
}

/// Cache key: distinguishes Note-addressed buttons (grid pads) from
/// CC-addressed buttons (Mini MK3 side column / top row), since the two
/// number-spaces overlap (e.g. note 89 and CC 89 are different LEDs).
#[derive(Debug, Clone, Copy, PartialEq, Eq, Hash, Structural)]
pub enum CacheKey {
    Note(u8),
    Cc(u8),
}

/// The key of a button's LED.
pub open spec fn key_of(button: ButtonRef) -> CacheKey {
    match button {
        ButtonRef::Note { number } => CacheKey::Note(number),
        ButtonRef::Cc { number } => CacheKey::Cc(number),
    }
}

/// The LED states of one page, by key.
#[derive(Debug)]
pub struct LedCache {
    notes: HashMap<u8, LedCell>,
    ccs: HashMap<u8, LedCell>,
}

impl View for LedCache {
    type V = Map<CacheKey, LedCell>;

    closed spec fn view(&self) -> Map<CacheKey, LedCell> {
        Map::new(
            |key: CacheKey|
                match key {
                    CacheKey::Note(n) => self.notes@.contains_key(n),
                    CacheKey::Cc(c) => self.ccs@.contains_key(c),
                },
            |key: CacheKey|
                match key {
                    CacheKey::Note(n) => self.notes@[n],
                    CacheKey::Cc(c) => self.ccs@[c],
                },
        )
    }
}

/// A map from bytes has at most 256 entries.
proof fn lemma_byte_map_len(cells: Map<u8, LedCell>)
    requires
        cells.dom().finite(),
    ensures
        cells.dom().len() <= 256,
{
    let bytes = Set::<u8>::range_inclusive(0, 255);
    vstd::set_lib::range_set_properties::<u8>(0, 255);
    assert(bytes.len() == 256);
    vstd::set_lib::lemma_len_subset(cells.dom(), bytes);
}

impl LedCache {
    pub fn new() -> (cache: Self)
        ensures
            cache@ == Map::<CacheKey, LedCell>::empty(),
    {
        let cache = LedCache { notes: HashMap::new(), ccs: HashMap::new() };
        assert(cache@ =~= Map::<CacheKey, LedCell>::empty());
        cache
    }

    pub fn get(&self, key: &CacheKey) -> (cell: Option<&LedCell>)
        ensures
            match cell {
                Some(found) => self@.contains_key(*key) && *found == self@[*key],
                None => !self@.contains_key(*key),
            },
    {
        broadcast use vstd::std_specs::hash::group_hash_axioms;

        match key {
            CacheKey::Note(n) => self.notes.get(n),
            CacheKey::Cc(c) => self.ccs.get(c),
        }
    }

    pub fn contains_key(&self, key: &CacheKey) -> (found: bool)
        ensures
            found == self@.contains_key(*key),
    {
        self.get(key).is_some()
    }

    pub fn insert(&mut self, key: CacheKey, cell: LedCell)
        ensures
            final(self)@ == old(self)@.insert(key, cell),
    {
        broadcast use vstd::std_specs::hash::group_hash_axioms;

        match key {
            CacheKey::Note(n) => {
                self.notes.insert(n, cell);
            },
            CacheKey::Cc(c) => {
                self.ccs.insert(c, cell);
            },
        }
        assert(self@ =~= old(self)@.insert(key, cell));
    }

    /// How many LEDs have a known state.
    pub fn len(&self) -> (len: usize)
        ensures
            self@.dom().finite(),
            len == self@.dom().len(),
    {
        broadcast use vstd::std_specs::hash::group_hash_axioms;

        proof {
            let notes = self.notes@.dom();
            let ccs = self.ccs@.dom();
            let note_keys = notes.map(|n: u8| CacheKey::Note(n));
            let cc_keys = ccs.map(|c: u8| CacheKey::Cc(c));
            lemma_byte_map_len(self.notes@);
            lemma_byte_map_len(self.ccs@);
            notes.lemma_map_finite(|n: u8| CacheKey::Note(n));
            ccs.lemma_map_finite(|c: u8| CacheKey::Cc(c));
            vstd::set_lib::lemma_map_size(notes, note_keys, |n: u8| CacheKey::Note(n));
            vstd::set_lib::lemma_map_size(ccs, cc_keys, |c: u8| CacheKey::Cc(c));
            vstd::set_lib::lemma_set_disjoint_lens(note_keys, cc_keys);
            assert(self@.dom() =~= note_keys + cc_keys) by {
                assert forall|key: CacheKey| self@.dom().contains(key) implies (note_keys
                    + cc_keys).contains(key) by {
                    match key {
                        CacheKey::Note(n) => {
                            assert(notes.contains(n));
                            assert(note_keys.contains(CacheKey::Note(n)));
                        },
                        CacheKey::Cc(c) => {
                            assert(ccs.contains(c));
                            assert(cc_keys.contains(CacheKey::Cc(c)));
                        },
                    }
                }
            }
        }
        self.notes.len() + self.ccs.len()
    }

    pub fn is_empty(&self) -> (empty: bool)
        ensures
            empty == (self@ == Map::<CacheKey, LedCell>::empty()),
    {
        let len = self.len();
        proof {
            if len == 0 {
                self@.dom().lemma_len0_is_empty();
                assert(self@ =~= Map::<CacheKey, LedCell>::empty());
            }
        }
        len == 0
    }
}

/// The key of a button's LED.
pub fn key_for(button: ButtonRef) -> (key: CacheKey)
    ensures
        key == key_of(button),
{
    match button {
        ButtonRef::Note { number } => CacheKey::Note(number),
        ButtonRef::Cc { number } => CacheKey::Cc(number),
    }
}

/// What is kept for a page is bounded: there are 512 keys.
pub proof fn law_cache_is_bounded(cells: Map<CacheKey, LedCell>)
    ensures
        cells.dom().finite(),
        cells.dom().len() <= 512,
{
    let bytes = Set::<u8>::range_inclusive(0, 255);
    let notes = bytes.map(|n: u8| CacheKey::Note(n));
    let ccs = bytes.map(|c: u8| CacheKey::Cc(c));
    vstd::set_lib::range_set_properties::<u8>(0, 255);
    assert(bytes.len() == 256);
    vstd::set_lib::lemma_map_size(bytes, notes, |n: u8| CacheKey::Note(n));
    vstd::set_lib::lemma_map_size(bytes, ccs, |c: u8| CacheKey::Cc(c));
    vstd::set_lib::lemma_len_union(notes, ccs);
    assert forall|key: CacheKey| cells.dom().contains(key) implies (notes + ccs).contains(
        key,
    ) by {
        match key {
            CacheKey::Note(n) => {
                assert(bytes.contains(n));
            },
            CacheKey::Cc(c) => {
                assert(bytes.contains(c));
            },
        }
    }
    assert(cells.dom().subset_of(notes + ccs));
    vstd::set_lib::lemma_set_subset_finite(notes + ccs, cells.dom());
    vstd::set_lib::lemma_len_subset(cells.dom(), notes + ccs);
}

} // verus!
