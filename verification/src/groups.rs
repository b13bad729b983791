//! The named job groups a log defines, as a map from group name to member
//! list in which a later definition of a name replaces the earlier one whole.

use vstd::prelude::*;

verus! {

/// The value a list of definitions denotes: later pairs win.
pub open spec fn assoc_map(items: Seq<(String, Vec<String>)>) -> Map<Seq<char>, Seq<Seq<char>>>
    decreases items.len(),
{
    if items.len() == 0 {
        Map::empty()
    } else {
        assoc_map(items.drop_last()).insert(
            items.last().0@,
            items.last().1.deep_view(),
        )
    }
}

/// Map from group name to its member job names.
pub struct Groups {
    items: Vec<(String, Vec<String>)>,
}

impl View for Groups {
    type V = Map<Seq<char>, Seq<Seq<char>>>;

    closed spec fn view(&self) -> Map<Seq<char>, Seq<Seq<char>>> {
        assoc_map(self.items@)
    }
}

proof fn lemma_assoc_found(items: Seq<(String, Vec<String>)>, j: int, k: Seq<char>)
    requires
        0 <= j < items.len(),
        items[j].0@ == k,
        forall|m: int| j < m < items.len() ==> items[m].0@ != k,
    ensures
        assoc_map(items).contains_key(k),
        assoc_map(items)[k] == items[j].1.deep_view(),
    decreases items.len(),
{
    if j == items.len() - 1 {
    } else {
        lemma_assoc_found(items.drop_last(), j, k);
    }
}

proof fn lemma_assoc_absent(items: Seq<(String, Vec<String>)>, k: Seq<char>)
    requires
        forall|m: int| 0 <= m < items.len() ==> items[m].0@ != k,
    ensures
        !assoc_map(items).contains_key(k),
    decreases items.len(),
{
    if items.len() > 0 {
        lemma_assoc_absent(items.drop_last(), k);
    }
}

impl Groups {
    /// No groups.
    pub fn new() -> (r: Groups)
        ensures
            r@ == Map::<Seq<char>, Seq<Seq<char>>>::empty(),
    {
        let g = Groups { items: Vec::new() };
        proof {
            assert(g.items@.len() == 0);
        }
        g
    }

    /// Define the group `k` as exactly `v`, replacing any earlier definition
    /// whole.
    pub fn set(&mut self, k: String, v: Vec<String>)
        ensures
            final (self)@ == old(self)@.insert(k@, v.deep_view()),
    {
        let ghost pre = self.items@;
        self.items.push((k, v));
        proof {
            assert(self.items@.drop_last() =~= pre);
        }
    }

    /// The members of group `k`, if it was defined.
    pub fn get(&self, k: &str) -> (r: Option<&Vec<String>>)
        ensures
            match r {
                Some(v) => self@.contains_key(k@) && v.deep_view() == self@[k@],
                None => !self@.contains_key(k@),
            },
    {
        let mut i: usize = self.items.len();
        while i > 0
            invariant
                i <= self.items@.len(),
                forall|m: int| i <= m < self.items@.len() ==> self.items@[m].0@ != k@,
            decreases i,
        {
            i -= 1;
            if str_eq(self.items[i].0.as_str(), k) {
                proof {
                    lemma_assoc_found(self.items@, i as int, k@);
                }
                return Some(&self.items[i].1);
            }
        }
        proof {
            lemma_assoc_absent(self.items@, k@);
        }
        None
    }
}

/// Whether two strings spell the same characters.
pub(crate) fn str_eq(a: &str, b: &str) -> (r: bool)
    ensures
        r == (a@ == b@),
{
    let na = a.unicode_len();
    let nb = b.unicode_len();
    if na != nb {
        proof {
            assert(a@ != b@);
        }
        return false;
    }
    let mut i: usize = 0;
    while i < na
        invariant
            i <= na,
            na == a@.len() == b@.len(),
            forall|m: int| 0 <= m < i ==> a@[m] == b@[m],
        decreases na - i,
    {
        if a.get_char(i) != b.get_char(i) {
            return false;
        }
        i += 1;
    }
    proof {
        assert(a@ =~= b@);
    }
    true
}

} // verus!
