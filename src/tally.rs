//! Counting how often each color occurs in a pixel sequence, and picking the
//! most frequent one.
use std::collections::HashMap;
use vstd::prelude::*;
use vstd::std_specs::hash::group_hash_axioms;

verus! {

broadcast use group_hash_axioms;

/// A pixel's color: red, green, blue.
pub type Rgb = (u8, u8, u8);

/// How many times `c` occurs in `px`.
pub open spec fn count(px: Seq<Rgb>, c: Rgb) -> nat
    decreases px.len(),
{
    if px.len() == 0 {
        0
    } else {
        count(px.drop_last(), c) + if px.last() == c {
            1nat
        } else {
            0nat
        }
    }
}

/// `c` is the most frequent color of `px`; among equally frequent colors it
/// is the one that occurs first. With no pixels it is black.
pub open spec fn is_dominant(px: Seq<Rgb>, c: Rgb) -> bool {
    if px.len() == 0 {
        c == (0u8, 0u8, 0u8)
    } else {
        exists|f: int|
            #[trigger] first_at(px, c, f) && forall|p: int|
                0 <= p < px.len() ==> #[trigger] count(px, px[p]) <= count(px, c) && (count(
                    px,
                    px[p],
                ) == count(px, c) ==> f <= p)
    }
}

/// `p` is where `c` first occurs in `px`.
pub open spec fn first_at(px: Seq<Rgb>, c: Rgb, p: int) -> bool {
    &&& 0 <= p < px.len()
    &&& px[p] == c
    &&& forall|q: int| 0 <= q < p ==> px[q] != c
}

pub open spec fn key_of(c: Rgb) -> u32 {
    (c.0 as u32) << 16u32 | (c.1 as u32) << 8u32 | c.2 as u32
}

proof fn lemma_key_injective(a: Rgb, b: Rgb)
    requires
        key_of(a) == key_of(b),
    ensures
        a == b,
{
    let (r1, g1, b1) = a;
    let (r2, g2, b2) = b;
    assert(((r1 as u32) << 16u32 | (g1 as u32) << 8u32 | b1 as u32) == ((r2 as u32) << 16u32 | (
    g2 as u32) << 8u32 | b2 as u32) ==> r1 == r2 && g1 == g2 && b1 == b2) by (bit_vector);
}

proof fn lemma_count_bound(px: Seq<Rgb>, c: Rgb)
    ensures
        count(px, c) <= px.len(),
    decreases px.len(),
{
    if px.len() > 0 {
        lemma_count_bound(px.drop_last(), c);
    }
}

fn color_key(c: Rgb) -> (k: u32)
    ensures
        k == key_of(c),
{
    (c.0 as u32) << 16u32 | (c.1 as u32) << 8u32 | c.2 as u32
}

/// The colors seen so far in first-seen order with their counts, and where
/// each one's entry is, by its key.
struct ColorTally {
    entries: Vec<(Rgb, usize)>,
    index: HashMap<u32, usize>,
    firsts: Ghost<Seq<int>>,
}

impl ColorTally {
    /// The tally counts exactly the pixels `px`.
    spec fn counts(&self, px: Seq<Rgb>) -> bool {
        let entries = self.entries@;
        let index = self.index@;
        let firsts = self.firsts@;
        &&& firsts.len() == entries.len()
        &&& forall|i: int|
            0 <= i < entries.len() ==> {
                &&& index.contains_key(key_of((#[trigger] entries[i]).0))
                &&& index[key_of(entries[i].0)] == i
                &&& entries[i].1 == count(px, entries[i].0)
                &&& first_at(px, entries[i].0, firsts[i])
            }
        &&& forall|i: int, j: int| 0 <= i < j < entries.len() ==> firsts[i] < firsts[j]
        &&& forall|key: u32|
            #[trigger] index.contains_key(key) ==> index[key] < entries.len() && key_of(
                entries[index[key] as int].0,
            ) == key
        &&& forall|p: int| 0 <= p < px.len() ==> index.contains_key(key_of(#[trigger] px[p]))
    }

    fn new() -> (t: Self)
        ensures
            t.counts(Seq::empty()),
    {
        ColorTally { entries: Vec::new(), index: HashMap::new(), firsts: Ghost(Seq::empty()) }
    }

    fn add(&mut self, Ghost(px): Ghost<Seq<Rgb>>, c: Rgb)
        requires
            old(self).counts(px),
            px.len() < usize::MAX,
        ensures
            final(self).counts(px.push(c)),
    {
        assert(vstd::std_specs::hash::obeys_key_model::<u32>());
        let ghost pc = px.push(c);
        assert(pc.drop_last() == px);
        assert forall|i: int| 0 <= i < self.entries.len() implies first_at(
            pc,
            (#[trigger] self.entries@[i]).0,
            self.firsts@[i],
        ) by {
            assert(first_at(px, self.entries@[i].0, self.firsts@[i]));
        }
        let key = color_key(c);
        match self.index.get(&key) {
            Some(found) => {
                let i = *found;
                proof {
                    lemma_key_injective(self.entries@[i as int].0, c);
                    lemma_count_bound(px, c);
                }
                let m = self.entries[i].1;
                self.entries.set(i, (c, m + 1));
                assert(forall|p: int| 0 <= p < px.len() ==> pc[p] == px[p]);
            },
            None => {
                proof {
                    assert forall|i: int| 0 <= i < self.entries.len() implies self.entries@[i].0
                        != c by {
                        assert(self.index@.contains_key(key_of(self.entries@[i].0)));
                    }
                    assert forall|q: int| 0 <= q < px.len() implies px[q] != c by {
                        assert(self.index@.contains_key(key_of(px[q])));
                    }
                    assert forall|i: int| 0 <= i < self.entries.len() implies self.firsts@[i]
                        < px.len() by {
                        assert(first_at(px, self.entries@[i].0, self.firsts@[i]));
                    }
                    assert(count(px, c) == 0) by {
                        lemma_count_absent(px, c);
                    }
                    self.firsts@ = self.firsts@.push(px.len() as int);
                }
                let e = self.entries.len();
                self.index.insert(key, e);
                self.entries.push((c, 1));
                assert(forall|p: int| 0 <= p < px.len() ==> pc[p] == px[p]);
            },
        }
    }

    /// The first entry with the largest count.
    fn dominant(&self, Ghost(px): Ghost<Seq<Rgb>>) -> (d: Rgb)
        requires
            self.counts(px),
        ensures
            is_dominant(px, d),
    {
        let unique = self.entries.len();
        if unique == 0 {
            assert(px.len() == 0) by {
                if px.len() > 0 {
                    assert(self.index@.contains_key(key_of(px[0])));
                }
            }
            return (0, 0, 0);
        }
        let mut best: usize = 0;
        let mut j: usize = 1;
        while j < unique
            invariant
                unique == self.entries.len(),
                best < j <= unique,
                forall|i: int|
                    0 <= i < j ==> (#[trigger] self.entries@[i]).1 < self.entries@[best as int].1
                        || (self.entries@[i].1 == self.entries@[best as int].1 && best <= i),
            decreases unique - j,
        {
            if self.entries[j].1 > self.entries[best].1 {
                best = j;
            }
            j = j + 1;
        }
        let d = self.entries[best].0;
        let ghost fb = self.firsts@[best as int];
        assert(first_at(px, d, fb));
        assert forall|p: int| 0 <= p < px.len() implies #[trigger] count(px, px[p]) <= count(px, d)
            && (count(px, px[p]) == count(px, d) ==> fb <= p) by {
            let ip = self.index@[key_of(px[p])] as int;
            lemma_key_injective(self.entries@[ip].0, px[p]);
            assert(self.entries@[ip].1 == count(px, px[p]));
            assert(first_at(px, px[p], self.firsts@[ip]));
            if count(px, px[p]) == count(px, d) {
                assert(best <= ip);
                if (best as int) < ip {
                    assert(self.firsts@[best as int] < self.firsts@[ip]);
                }
                assert(self.firsts@[ip] <= p);
            }
        }
        d
    }

    /// The number of distinct colors.
    fn distinct(&self, Ghost(px): Ghost<Seq<Rgb>>) -> (n: usize)
        requires
            self.counts(px),
        ensures
            n == px.to_set().len(),
    {
        proof {
            let entries = self.entries@;
            let keys = entries.map_values(|e: (Rgb, usize)| e.0);
            assert(keys.no_duplicates()) by {
                assert forall|a: int, b: int|
                    0 <= a < keys.len() && 0 <= b < keys.len() && a != b implies keys[a]
                    != keys[b] by {
                    assert(self.index@[key_of(entries[a].0)] == a);
                    assert(self.index@[key_of(entries[b].0)] == b);
                }
            }
            assert(keys.to_set() =~= px.to_set()) by {
                assert forall|c: Rgb| keys.to_set().contains(c) implies px.to_set().contains(
                    c,
                ) by {
                    let a = choose|a: int| 0 <= a < keys.len() && keys[a] == c;
                    assert(first_at(px, entries[a].0, self.firsts@[a]));
                    assert(px[self.firsts@[a]] == c);
                }
                assert forall|c: Rgb| px.to_set().contains(c) implies keys.to_set().contains(
                    c,
                ) by {
                    let p = choose|p: int| 0 <= p < px.len() && px[p] == c;
                    assert(self.index@.contains_key(key_of(px[p])));
                    let ip = self.index@[key_of(px[p])] as int;
                    lemma_key_injective(entries[ip].0, px[p]);
                    assert(keys[ip] == c);
                }
            }
            keys.unique_seq_to_set();
        }
        self.entries.len()
    }
}

proof fn lemma_count_absent(px: Seq<Rgb>, c: Rgb)
    requires
        forall|q: int| 0 <= q < px.len() ==> px[q] != c,
    ensures
        count(px, c) == 0,
    decreases px.len(),
{
    if px.len() > 0 {
        let s = px.drop_last();
        assert(forall|q: int| 0 <= q < s.len() ==> s[q] == px[q]);
        lemma_count_absent(s, c);
    }
}

/// The number of distinct colors in `px`, and its dominant color.
pub fn color_summary(px: &Vec<Rgb>) -> (r: (usize, Rgb))
    ensures
        r.0 == px@.to_set().len(),
        is_dominant(px@, r.1),
{
    let mut tally = ColorTally::new();
    let n = px.len();
    let mut k: usize = 0;
    while k < n
        invariant
            n == px@.len(),
            0 <= k <= n,
            tally.counts(px@.take(k as int)),
        decreases n - k,
    {
        assert(px@.take(k + 1) == px@.take(k as int).push(px@[k as int]));
        tally.add(Ghost(px@.take(k as int)), px[k]);
        k = k + 1;
    }
    assert(px@.take(n as int) == px@);
    (tally.distinct(Ghost(px@)), tally.dominant(Ghost(px@)))
}

} // verus!
