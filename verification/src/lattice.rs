//! Tables addressed by lattice key.

use crate::key::{code_key, decode_key, encode_key, key_code, lemma_code_key_of_key_code,
    lemma_key_code_injective, lemma_key_code_of_code_key, Key};
use crate::hexagon::{Hexagon, HexagonColor};
use std::collections::{HashMap, HashSet};
use vstd::pervasive::unreached;
use vstd::prelude::*;
use vstd::set_lib::lemma_map_size;
use vstd::relations::injective_on;
use vstd::seq_lib::seq_to_set_is_finite;
use vstd::std_specs::hash::{into_iter_hash_keys, spec_hash_keys_iter, spec_hash_map_iter};
use vstd::std_specs::iter::IteratorSpec;

verus! {

broadcast use vstd::std_specs::hash::group_hash_axioms;

/// A finite set of lattice keys.
pub struct KeySet {
    codes: HashSet<u64>,
}

impl View for KeySet {
    type V = Set<Key>;

    closed spec fn view(&self) -> Set<Key> {
        Set::new(|key: Key| self.codes@.contains(key_code(key)))
    }
}

impl KeySet {
    /// The view is the image of the stored codes, so it is finite and as
    /// large as the table.
    proof fn lemma_view_is_image(&self)
        ensures
            self@ == self.codes@.map(|code: u64| code_key(code)),
            self@.finite(),
            self@.len() == self.codes@.len(),
    {
        let f = |code: u64| code_key(code);
        let image = self.codes@.map(f);
        assert forall|key: Key| self@.contains(key) <==> image.contains(key) by {
            lemma_code_key_of_key_code(key);
            if image.contains(key) {
                let code = choose|code: u64| self.codes@.contains(code) && f(code) == key;
                lemma_key_code_of_code_key(code);
            }
        }
        assert(self@ =~= image);
        assert(injective_on(f, self.codes@)) by {
            assert forall|c1: u64, c2: u64| #[trigger] f(c1) == #[trigger] f(c2) implies c1 == c2 by {
                lemma_key_code_of_code_key(c1);
                lemma_key_code_of_code_key(c2);
            }
        }
        assert(self.codes@.finite()) by {
            seq_to_set_is_finite(spec_hash_keys_iter(&self.codes).remaining().unref());
        }
        lemma_map_size(self.codes@, image, f);
    }

    /// Every key set is finite.
    pub proof fn lemma_finite(&self)
        ensures
            self@.finite(),
    {
        self.lemma_view_is_image();
    }

    /// The keys in the order in which the table is walked.
    pub closed spec fn walk(&self) -> Seq<Key> {
        into_iter_hash_keys(spec_hash_keys_iter(&self.codes)).map_values(|code: u64| code_key(code))
    }

    /// The key at place `n` of the walk, which lists every key once.
    pub fn nth(&self, n: usize) -> (key: Key)
        requires
            n < self@.len(),
        ensures
            key == self.walk()[n as int],
            self.walk().len() == self@.len(),
            self.walk().no_duplicates(),
            self.walk().to_set() == self@,
    {
        proof {
            self.lemma_view_is_image();
        }
        let mut i: usize = 0;
        for code in it: self.codes.iter()
            invariant
                i == it.index(),
                i <= n,
                n < self.codes@.len(),
                it.seq() == spec_hash_keys_iter(&self.codes).remaining(),
                it.seq().unref() == into_iter_hash_keys(spec_hash_keys_iter(&self.codes)),
        {
            if i == n {
                proof {
                    self.lemma_walk_lists_view(it.seq());
                }
                return decode_key(*code);
            }
            i += 1;
        }
        unreached()
    }

    proof fn lemma_walk_lists_view(&self, seq: Seq<&u64>)
        requires
            seq.unref() == into_iter_hash_keys(spec_hash_keys_iter(&self.codes)),
            seq.unref().to_set() == self.codes@,
            seq.no_duplicates(),
            seq.len() == self.codes@.len(),
        ensures
            self.walk().len() == self@.len(),
            self.walk().no_duplicates(),
            self.walk().to_set() == self@,
    {
        self.lemma_view_is_image();
        let codes = seq.unref();
        let walk = self.walk();
        assert forall|i: int, j: int| 0 <= i < walk.len() && 0 <= j < walk.len() && i != j implies walk[i] != walk[j] by {
            lemma_key_code_of_code_key(codes[i]);
            lemma_key_code_of_code_key(codes[j]);
            assert(seq[i] != seq[j]);
        }
        assert forall|key: Key| walk.to_set().contains(key) <==> self@.contains(key) by {
            lemma_code_key_of_key_code(key);
            if walk.to_set().contains(key) {
                let i = choose|i: int| 0 <= i < walk.len() && walk[i] == key;
                lemma_key_code_of_code_key(codes[i]);
                assert(codes.to_set().contains(codes[i]));
            }
            if self@.contains(key) {
                assert(codes.to_set().contains(key_code(key)));
                let i = choose|i: int| 0 <= i < codes.len() && codes[i] == key_code(key);
                assert(walk[i] == key);
            }
        }
        assert(walk.to_set() =~= self@);
    }

    pub fn new() -> (set: Self)
        ensures
            set@ == Set::<Key>::empty(),
    {
        let set = KeySet { codes: HashSet::new() };
        assert(set@ =~= Set::<Key>::empty());
        set
    }

    pub fn len(&self) -> (n: usize)
        ensures
            n == self@.len(),
    {
        proof {
            self.lemma_view_is_image();
        }
        self.codes.len()
    }

    pub fn is_empty(&self) -> (b: bool)
        ensures
            b == self@.is_empty(),
    {
        proof {
            self.lemma_view_is_image();
        }
        self.codes.len() == 0
    }

    pub fn contains(&self, key: Key) -> (b: bool)
        ensures
            b == self@.contains(key),
    {
        let code = encode_key(key);
        self.codes.contains(&code)
    }

    /// Adds `key`; says whether it was new.
    pub fn insert(&mut self, key: Key) -> (fresh: bool)
        ensures
            final(self)@ == old(self)@.insert(key),
            fresh == !old(self)@.contains(key),
    {
        let code = encode_key(key);
        let fresh = self.codes.insert(code);
        proof {
            assert forall|k: Key| self@.contains(k) == old(self)@.insert(key).contains(k) by {
                lemma_key_code_injective(k, key);
            }
            assert(self@ =~= old(self)@.insert(key));
        }
        fresh
    }

    /// Takes `key` out; says whether it was there.
    pub fn remove(&mut self, key: Key) -> (present: bool)
        ensures
            final(self)@ == old(self)@.remove(key),
            present == old(self)@.contains(key),
    {
        let code = encode_key(key);
        let present = self.codes.remove(&code);
        proof {
            assert forall|k: Key| self@.contains(k) == old(self)@.remove(key).contains(k) by {
                lemma_key_code_injective(k, key);
            }
            assert(self@ =~= old(self)@.remove(key));
        }
        present
    }
}

/// The tiling: at most one hexagon under each key.
pub struct Lattice {
    cells: HashMap<u64, Hexagon>,
}

impl View for Lattice {
    type V = Map<Key, Seq<HexagonColor>>;

    closed spec fn view(&self) -> Map<Key, Seq<HexagonColor>> {
        Map::new(
            |key: Key| self.cells@.contains_key(key_code(key)),
            |key: Key| self.cells@[key_code(key)]@,
        )
    }
}

impl Lattice {
    /// The keys are the image of the stored codes, so they are finitely many
    /// and as many as the table has entries.
    proof fn lemma_dom_is_image(&self)
        ensures
            self@.dom() == self.cells@.dom().map(|code: u64| code_key(code)),
            self@.dom().finite(),
            self@.dom().len() == self.cells@.dom().len(),
    {
        let f = |code: u64| code_key(code);
        let image = self.cells@.dom().map(f);
        assert forall|key: Key| self@.dom().contains(key) <==> image.contains(key) by {
            lemma_code_key_of_key_code(key);
            if image.contains(key) {
                let code = choose|code: u64| self.cells@.dom().contains(code) && f(code) == key;
                lemma_key_code_of_code_key(code);
            }
        }
        assert(self@.dom() =~= image);
        assert(injective_on(f, self.cells@.dom())) by {
            assert forall|c1: u64, c2: u64| #[trigger] f(c1) == #[trigger] f(c2) implies c1
                == c2 by {
                lemma_key_code_of_code_key(c1);
                lemma_key_code_of_code_key(c2);
            }
        }
        lemma_map_size(self.cells@.dom(), image, f);
    }

    /// Every lattice has finitely many cells, and each is a ring of six
    /// slots.
    pub proof fn lemma_finite_rings(&self)
        ensures
            self@.dom().finite(),
            forall|key: Key| self@.contains_key(key) ==> (#[trigger] self@[key]).len() == 6,
    {
        self.lemma_dom_is_image();
    }

    pub fn new() -> (lattice: Self)
        ensures
            lattice@ == Map::<Key, Seq<HexagonColor>>::empty(),
    {
        let lattice = Lattice { cells: HashMap::new() };
        assert(lattice@ =~= Map::<Key, Seq<HexagonColor>>::empty());
        lattice
    }

    /// The number of cells.
    pub fn len(&self) -> (n: usize)
        ensures
            n == self@.dom().len(),
    {
        proof {
            self.lemma_dom_is_image();
        }
        self.cells.len()
    }

    pub fn contains_key(&self, key: Key) -> (b: bool)
        ensures
            b == self@.contains_key(key),
    {
        let code = encode_key(key);
        self.cells.contains_key(&code)
    }

    /// The hexagon under `key`, if there is one.
    pub fn get(&self, key: Key) -> (found: Option<Hexagon>)
        ensures
            found is Some <==> self@.contains_key(key),
            found matches Some(hex) ==> hex@ == self@[key],
    {
        let code = encode_key(key);
        match self.cells.get(&code) {
            Some(hex) => Some(*hex),
            None => None,
        }
    }

    /// Puts `hex` under `key`, in place of what was there.
    pub fn insert(&mut self, key: Key, hex: Hexagon)
        ensures
            final(self)@ == old(self)@.insert(key, hex@),
    {
        let code = encode_key(key);
        self.cells.insert(code, hex);
        proof {
            assert forall|k: Key|
                self@.contains_key(k) == old(self)@.insert(key, hex@).contains_key(k) && (
                self@.contains_key(k) ==> self@[k] == old(self)@.insert(key, hex@)[k]) by {
                lemma_key_code_injective(k, key);
            }
            assert(self@ =~= old(self)@.insert(key, hex@));
        }
    }

    /// Every cell once, as key and hexagon, in the order in which the table
    /// is walked.
    pub fn entries(&self) -> (cells: Vec<(Key, Hexagon)>)
        ensures
            cells@.len() == self@.dom().len(),
            forall|i: int|
                0 <= i < cells@.len() ==> self@.contains_key(#[trigger] cells@[i].0)
                    && self@[cells@[i].0] == cells@[i].1@,
            forall|i: int, j: int|
                0 <= i < j < cells@.len() ==> cells@[i].0 != cells@[j].0,
            forall|key: Key|
                self@.contains_key(key) ==> exists|i: int|
                    0 <= i < cells@.len() && #[trigger] cells@[i].0 == key,
    {
        proof {
            self.lemma_dom_is_image();
        }
        let mut cells: Vec<(Key, Hexagon)> = Vec::new();
        for entry in it: self.cells.iter()
            invariant
                cells@.len() == it.index(),
                it.seq() == spec_hash_map_iter(&self.cells).remaining(),
                forall|i: int|
                    #![trigger cells@[i]]
                    0 <= i < cells@.len() ==> cells@[i].0 == code_key(*it.seq()[i].0)
                        && cells@[i].1 == *it.seq()[i].1,
        {
            let key = decode_key(*entry.0);
            cells.push((key, *entry.1));
        }
        proof {
            let seq = spec_hash_map_iter(&self.cells).remaining();
            assert(seq.no_duplicates());
            assert forall|i: int| 0 <= i < cells@.len() implies self@.contains_key(
                #[trigger] cells@[i].0,
            ) && self@[cells@[i].0] == cells@[i].1@ by {
                assert(self.cells@.contains_key(*seq[i].0));
                lemma_key_code_of_code_key(*seq[i].0);
            }
            assert forall|i: int, j: int| 0 <= i < j < cells@.len() implies cells@[i].0
                != cells@[j].0 by {
                lemma_key_code_of_code_key(*seq[i].0);
                lemma_key_code_of_code_key(*seq[j].0);
                assert(self.cells@.contains_key(*seq[i].0));
                assert(self.cells@.contains_key(*seq[j].0));
                assert(seq[i] != seq[j]);
            }
            assert forall|key: Key| self@.contains_key(key) implies exists|i: int|
                0 <= i < cells@.len() && #[trigger] cells@[i].0 == key by {
                let code = key_code(key);
                lemma_code_key_of_key_code(key);
                assert(seq.contains((&code, &self.cells@[code])));
                let i = choose|i: int| 0 <= i < seq.len() && seq[i] == (&code, &self.cells@[code]);
                assert(cells@[i].0 == key);
            }
        }
        cells
    }
}

} // verus!
