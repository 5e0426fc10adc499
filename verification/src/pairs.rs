//! Maps that are keyed by a client and an image.
use std::collections::HashMap;
use vstd::prelude::*;

use crate::tables::{self, map_keys};

verus! {

/// The number of image ids.
const IMAGES: u64 = 0x1_0000_0000;

/// One number for a client and an image.
spec fn packed(client: u16, image: u32) -> u64 {
    (client * IMAGES + image) as u64
}

/// A map from pairs of a client and an image.
#[derive(Debug)]
pub(crate) struct PairMap<V> {
    map: HashMap<u64, V>,
}

impl<V> View for PairMap<V> {
    type V = Map<(u16, u32), V>;

    closed spec fn view(&self) -> Map<(u16, u32), V> {
        Map::new(
            |k: (u16, u32)| self.map@.contains_key(packed(k.0, k.1)),
            |k: (u16, u32)| self.map@[packed(k.0, k.1)],
        )
    }
}

/// Different pairs have different numbers.
proof fn lemma_packed(client: u16, image: u32)
    ensures
        packed(client, image) == client * IMAGES + image,
        packed(client, image) / IMAGES == client,
        packed(client, image) % IMAGES == image,
{
}

proof fn lemma_packed_injective()
    ensures
        forall|a: (u16, u32), b: (u16, u32)|
            #![trigger packed(a.0, a.1), packed(b.0, b.1)]
            packed(a.0, a.1) == packed(b.0, b.1) ==> a == b,
{
    assert forall|a: (u16, u32), b: (u16, u32)|
        #![trigger packed(a.0, a.1), packed(b.0, b.1)]
        packed(a.0, a.1) == packed(b.0, b.1) implies a == b by {
        lemma_packed(a.0, a.1);
        lemma_packed(b.0, b.1);
    }
}

fn pack(client: u16, image: u32) -> (r: u64)
    ensures
        r == packed(client, image),
{
    client as u64 * IMAGES + image as u64
}

impl<V> PairMap<V> {
    pub(crate) fn new() -> (r: Self)
        ensures
            r@ == Map::<(u16, u32), V>::empty(),
    {
        let r = PairMap { map: HashMap::new() };
        assert(r@ =~= Map::<(u16, u32), V>::empty());
        r
    }

    pub(crate) fn get(&self, client: u16, image: u32) -> (r: Option<&V>)
        ensures
            match r {
                Some(value) => self@.contains_key((client, image)) && self@[(client, image)]
                    == *value,
                None => !self@.contains_key((client, image)),
            },
    {
        self.map.get(&pack(client, image))
    }

    pub(crate) fn insert(&mut self, client: u16, image: u32, value: V)
        ensures
            final(self)@ == old(self)@.insert((client, image), value),
    {
        self.map.insert(pack(client, image), value);
        proof {
            lemma_packed_injective();
            assert(self@ =~= old(self)@.insert((client, image), value));
        }
    }

    pub(crate) fn remove(&mut self, client: u16, image: u32) -> (r: Option<V>)
        ensures
            final(self)@ == old(self)@.remove((client, image)),
            match r {
                Some(value) => old(self)@.contains_key((client, image)) && old(self)@[(
                    client,
                    image,
                )] == value,
                None => !old(self)@.contains_key((client, image)),
            },
    {
        let r = self.map.remove(&pack(client, image));
        proof {
            lemma_packed_injective();
            assert(self@ =~= old(self)@.remove((client, image)));
        }
        r
    }

    /// The keys, in any order.
    pub(crate) fn keys(&self) -> (r: Vec<(u16, u32)>)
        ensures
            tables::lists(r@, self@.dom()),
    {
        let numbers = map_keys(&self.map);
        let mut keys: Vec<(u16, u32)> = Vec::new();
        for i in 0..numbers.len()
            invariant
                tables::lists(numbers@, self.map@.dom()),
                forall|j: int|
                    0 <= j < keys@.len() ==> numbers@.take(i as int).contains(
                        packed((#[trigger] keys@[j]).0, keys@[j].1),
                    ),
                forall|k: (u16, u32)|
                    #![trigger keys@.contains(k)]
                    numbers@.take(i as int).contains(packed(k.0, k.1)) ==> keys@.contains(k),
                keys@.no_duplicates(),
        {
            let number = numbers[i];
            let ghost before = keys@;
            let ghost seen = numbers@.take(i as int);
            let ghost now = numbers@.take(i + 1);
            proof {
                assert(now =~= seen.push(number));
                assert(!seen.contains(number));
                assert forall|x: u64| seen.contains(x) implies now.contains(x) by {
                    let j = choose|j: int| 0 <= j < seen.len() && seen[j] == x;
                    assert(now[j] == x);
                }
                assert(now[i as int] == number);
                assert forall|x: u64| now.contains(x) implies seen.contains(x) || x == number by {
                    let j = choose|j: int| 0 <= j < now.len() && now[j] == x;
                    if j < i {
                        assert(seen[j] == x);
                    }
                }
            }
            if number / IMAGES <= u16::MAX as u64 {
                let key = ((number / IMAGES) as u16, (number % IMAGES) as u32);
                keys.push(key);
                proof {
                    assert(packed(key.0, key.1) == number);
                    assert(keys@ =~= before.push(key));
                    assert(keys@[before.len() as int] == key);
                    assert forall|k: (u16, u32)|
                        #![trigger keys@.contains(k)]
                        now.contains(packed(k.0, k.1)) implies keys@.contains(k) by {
                        if packed(k.0, k.1) == number {
                            lemma_packed_injective();
                            assert(k == key);
                        } else {
                            assert(before.contains(k));
                            let j = choose|j: int| 0 <= j < before.len() && before[j] == k;
                            assert(keys@[j] == k);
                        }
                    }
                }
            } else {
                proof {
                    assert forall|k: (u16, u32)|
                        #![trigger keys@.contains(k)]
                        now.contains(packed(k.0, k.1)) implies keys@.contains(k) by {
                        lemma_packed(k.0, k.1);
                    }
                }
            }
        }
        proof {
            assert(numbers@.take(numbers@.len() as int) =~= numbers@);
            assert forall|k: (u16, u32)| keys@.to_set().contains(k) <==> self@.dom().contains(k) by {
                if keys@.contains(k) {
                    let j = choose|j: int| 0 <= j < keys@.len() && keys@[j] == k;
                    assert(numbers@.contains(packed(k.0, k.1)));
                    assert(numbers@.to_set().contains(packed(k.0, k.1)));
                } else if self@.dom().contains(k) {
                    assert(self.map@.dom().contains(packed(k.0, k.1)));
                    assert(numbers@.to_set().contains(packed(k.0, k.1)));
                }
            }
            assert(keys@.to_set() =~= self@.dom());
        }
        keys
    }

    /// Removes every entry of a client.
    pub(crate) fn remove_client(&mut self, client: u16)
        ensures
            final(self)@ == old(self)@.remove_keys(Set::new(|k: (u16, u32)| k.0 == client)),
    {
        let keys = self.keys();
        for i in 0..keys.len()
            invariant
                tables::lists(keys@, old(self)@.dom()),
                forall|k: (u16, u32)|
                    #![trigger self@.contains_key(k)]
                    self@.contains_key(k) <==> old(self)@.contains_key(k) && !(k.0 == client
                        && keys@.take(i as int).contains(k)),
                forall|k: (u16, u32)| #[trigger] self@.contains_key(k) ==> self@[k] == old(self)@[k],
        {
            let key = keys[i];
            proof {
                tables::lemma_take_contains(keys@, i as int);
            }
            if key.0 == client {
                self.remove(key.0, key.1);
            }
        }
        proof {
            assert(keys@.take(keys@.len() as int) =~= keys@);
            assert forall|k: (u16, u32)| old(self)@.contains_key(k) implies keys@.contains(k) by {
                assert(keys@.to_set().contains(k));
            }
            assert(self@ =~= old(self)@.remove_keys(Set::new(|k: (u16, u32)| k.0 == client)));
        }
    }

    /// Removes every entry of an image.
    pub(crate) fn remove_image(&mut self, image: u32)
        ensures
            final(self)@ == old(self)@.remove_keys(Set::new(|k: (u16, u32)| k.1 == image)),
    {
        let keys = self.keys();
        for i in 0..keys.len()
            invariant
                tables::lists(keys@, old(self)@.dom()),
                forall|k: (u16, u32)|
                    #![trigger self@.contains_key(k)]
                    self@.contains_key(k) <==> old(self)@.contains_key(k) && !(k.1 == image
                        && keys@.take(i as int).contains(k)),
                forall|k: (u16, u32)| #[trigger] self@.contains_key(k) ==> self@[k] == old(self)@[k],
        {
            let key = keys[i];
            proof {
                tables::lemma_take_contains(keys@, i as int);
            }
            if key.1 == image {
                self.remove(key.0, key.1);
            }
        }
        proof {
            assert(keys@.take(keys@.len() as int) =~= keys@);
            assert forall|k: (u16, u32)| old(self)@.contains_key(k) implies keys@.contains(k) by {
                assert(keys@.to_set().contains(k));
            }
            assert(self@ =~= old(self)@.remove_keys(Set::new(|k: (u16, u32)| k.1 == image)));
        }
    }
}

} // verus!
