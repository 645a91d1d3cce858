use vstd::prelude::*;

verus! {

/// What a list of (name, page) records means when later records shadow
/// earlier ones with the same name: the map after inserting the first `n`.
pub open spec fn entries_map(entries: Seq<(String, usize)>, n: int) -> Map<Seq<char>, nat>
    decreases n,
{
    if n <= 0 {
        Map::empty()
    } else {
        entries_map(entries, n - 1).insert(entries[n - 1].0@, entries[n - 1].1 as nat)
    }
}

/// Records after position `i` that carry other names do not change what the
/// map says of `k`.
proof fn lemma_shadow_free_suffix(entries: Seq<(String, usize)>, i: int, n: int, k: Seq<char>)
    requires
        0 <= i <= n <= entries.len(),
        forall|j: int| i <= j < n ==> entries[j].0@ != k,
    ensures
        entries_map(entries, n).contains_key(k) == entries_map(entries, i).contains_key(k),
        entries_map(entries, n)[k] == entries_map(entries, i)[k],
    decreases n - i,
{
    if n > i {
        lemma_shadow_free_suffix(entries, i, n - 1, k);
    }
}

/// Label table: from a label's name to the page it resolves to.
/// Inserting a name that is already present replaces its page.
pub struct LabelMap {
    entries: Vec<(String, usize)>,
}

impl View for LabelMap {
    type V = Map<Seq<char>, nat>;

    closed spec fn view(&self) -> Map<Seq<char>, nat> {
        entries_map(self.entries@, self.entries@.len() as int)
    }
}

impl LabelMap {
    pub fn new() -> (r: LabelMap)
        ensures
            r@ == Map::<Seq<char>, nat>::empty(),
    {
        LabelMap { entries: Vec::new() }
    }

    /// Binds `name` to `page`; a previous binding of the same name is replaced.
    pub fn insert(&mut self, name: String, page: usize)
        ensures
            final(self)@ == old(self)@.insert(name@, page as nat),
    {
        self.entries.push((name, page));
        proof {
            lemma_entries_map_prefix(
                self.entries@,
                old(self).entries@,
                old(self).entries@.len() as int,
            );
        }
    }

    /// The page bound to `name`, if any.
    pub fn get(&self, name: &String) -> (r: Option<usize>)
        ensures
            match r {
                Some(p) => self@.contains_key(name@) && self@[name@] == p as nat,
                None => !self@.contains_key(name@),
            },
    {
        let n = self.entries.len();
        let mut i: usize = n;
        while i > 0
            invariant
                n == self.entries@.len(),
                i <= n,
                forall|j: int| i <= j < n ==> self.entries@[j].0@ != name@,
            decreases i,
        {
            i = i - 1;
            if self.entries[i].0 == *name {
                proof {
                    lemma_shadow_free_suffix(self.entries@, i + 1, n as int, name@);
                }
                return Some(self.entries[i].1);
            }
        }
        proof {
            lemma_shadow_free_suffix(self.entries@, 0, n as int, name@);
        }
        None
    }
}

/// The map of a prefix depends on that prefix alone.
proof fn lemma_entries_map_prefix(a: Seq<(String, usize)>, b: Seq<(String, usize)>, n: int)
    requires
        0 <= n <= a.len(),
        n <= b.len(),
        forall|j: int| 0 <= j < n ==> a[j] == b[j],
    ensures
        entries_map(a, n) == entries_map(b, n),
    decreases n,
{
    if n > 0 {
        lemma_entries_map_prefix(a, b, n - 1);
    }
}

} // verus!
