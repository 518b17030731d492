//! A case-normalised header mapping. Keys are stored as handed in (the
//! header parser lower-cases them first); inserting an existing key
//! overwrites its value, so the later of two duplicate header lines wins.

use vstd::prelude::*;

verus! {

/// The mapping a sequence of insertions denotes: each entry overwrites any
/// earlier entry with the same key.
pub open spec fn map_of(entries: Seq<(String, String)>) -> Map<Seq<char>, Seq<char>>
    decreases entries.len(),
{
    if entries.len() == 0 {
        Map::<Seq<char>, Seq<char>>::empty()
    } else {
        map_of(entries.drop_last()).insert(entries.last().0@, entries.last().1@)
    }
}

/// A header mapping with last-wins insertion.
#[derive(Debug)]
pub struct Headers {
    entries: Vec<(String, String)>,
}

impl View for Headers {
    type V = Map<Seq<char>, Seq<char>>;

    closed spec fn view(&self) -> Map<Seq<char>, Seq<char>> {
        map_of(self.entries@)
    }
}

impl Headers {
    /// An empty mapping.
    pub fn new() -> (r: Self)
        ensures
            r@ == Map::<Seq<char>, Seq<char>>::empty(),
    {
        Headers { entries: Vec::new() }
    }

    /// Inserts a key-value pair; an existing value under the same key is
    /// overwritten.
    pub fn insert(&mut self, key: String, value: String)
        ensures
            final(self)@ == old(self)@.insert(key@, value@),
    {
        let ghost before = self.entries@;
        self.entries.push((key, value));
        proof {
            assert(self.entries@.drop_last() =~= before);
        }
    }

    /// Looks a key up.
    pub fn get<'a>(&'a self, key: &String) -> (r: Option<&'a String>)
        ensures
            match r {
                Some(v) => self@.contains_key(key@) && v@ == self@[key@],
                None => !self@.contains_key(key@),
            },
    {
        let n = self.entries.len();
        let mut j: usize = n;
        while j > 0
            invariant
                j <= n,
                n == self.entries@.len(),
                forall|i: int| j <= i < n ==> (#[trigger] self.entries@[i]).0@ != key@,
            decreases j,
        {
            j = j - 1;
            let pair = &self.entries[j];
            if pair.0 == *key {
                proof {
                    lemma_map_of_prefix(self.entries@, j + 1, key@);
                    assert(self.entries@.take(j + 1).drop_last() =~= self.entries@.take(j as int));
                    assert(self.entries@.take(j + 1).last() == self.entries@[j as int]);
                }
                return Some(&pair.1);
            }
        }
        proof {
            lemma_map_of_prefix(self.entries@, 0, key@);
            assert(self.entries@.take(0) =~= Seq::<(String, String)>::empty());
        }
        None
    }

    /// Whether the mapping holds no key.
    pub fn is_empty(&self) -> (r: bool)
        ensures
            r == (self@ == Map::<Seq<char>, Seq<char>>::empty()),
    {
        let r = self.entries.len() == 0;
        proof {
            if self.entries@.len() > 0 {
                assert(self@.contains_key(self.entries@.last().0@)) by {
                    lemma_map_of_prefix(self.entries@, self.entries@.len() as int, self.entries@.last().0@);
                }
            }
        }
        r
    }
}

/// If no entry at or after position `j` has key `k`, the denoted mapping
/// agrees at `k` with the mapping of the first `j` entries.
proof fn lemma_map_of_prefix(entries: Seq<(String, String)>, j: int, k: Seq<char>)
    requires
        0 <= j <= entries.len(),
        forall|i: int| j <= i < entries.len() ==> (#[trigger] entries[i]).0@ != k,
    ensures
        map_of(entries).contains_key(k) == map_of(entries.take(j)).contains_key(k),
        map_of(entries).contains_key(k) ==> map_of(entries)[k] == map_of(entries.take(j))[k],
    decreases entries.len() - j,
{
    if j == entries.len() {
        assert(entries.take(j) =~= entries);
    } else {
        lemma_map_of_prefix(entries, j + 1, k);
        assert(entries.take(j + 1).drop_last() =~= entries.take(j));
        assert(entries.take(j + 1).last() == entries[j]);
    }
}

/// Law: of two insertions under the same key, the later wins — inserting
/// `v1` and then `v2` under `k` denotes the same mapping as inserting `v2`
/// alone, and that mapping holds `v2` at `k`.
pub proof fn lemma_header_last_wins(
    m: Map<Seq<char>, Seq<char>>,
    k: Seq<char>,
    v1: Seq<char>,
    v2: Seq<char>,
)
    ensures
        m.insert(k, v1).insert(k, v2) == m.insert(k, v2),
        m.insert(k, v2)[k] == v2,
{
    assert(m.insert(k, v1).insert(k, v2) =~= m.insert(k, v2));
}

} // verus!
