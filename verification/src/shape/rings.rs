//! A closed chain stays closed when it is begun at another edge or run the
//! other way round.

use vstd::prelude::*;
use crate::shape::store::Handle;
use crate::shape::ShapeView;
use crate::topology::turns::{
    ahead_of, behind_of, lemma_ahead, lemma_behind, lemma_turned, lemma_turned_back,
};
use crate::topology::{same_cycle, turned, turned_back, Ends};

verus! {

impl Ends {
    /// A chain that can run along an edge one way can run along it the other way.
    pub proof fn lemma_across_back(self, from: Handle, to: Handle)
        requires
            self.across(from) == Some(to),
        ensures
            self.across(to) == Some(from),
    {
    }
}

impl ShapeView {
    /// The vertex at which a closed chain along `cycle` from `start` stands
    /// after `i` edges, where a chain that has run along all edges stands at
    /// the start again.
    pub open spec fn ring(self, cycle: Seq<Handle>, start: Handle, i: int) -> Handle {
        if i <= cycle.len() {
            self.chain(cycle, start, i as nat).unwrap()
        } else {
            self.chain(cycle, start, (i - cycle.len()) as nat).unwrap()
        }
    }

    /// A chain that stands somewhere after all edges stood somewhere after
    /// each of them, and ran along each edge from one end to the other.
    pub proof fn lemma_chain_whole(self, cycle: Seq<Handle>, start: Handle, i: nat)
        requires
            self.chain(cycle, start, cycle.len()).is_some(),
            i < cycle.len(),
        ensures
            self.chain(cycle, start, i).is_some(),
            self.chain(cycle, start, i + 1).is_some(),
            self.ends_at(cycle, i as int).across(self.chain(cycle, start, i).unwrap())
                == self.chain(cycle, start, i + 1),
    {
        if self.chain(cycle, start, i).is_none() {
            self.lemma_chain_broken(cycle, start, i, cycle.len());
        }
        if self.chain(cycle, start, i + 1).is_none() {
            self.lemma_chain_broken(cycle, start, i + 1, cycle.len());
        }
    }

    /// A closed chain begun at another edge runs through the same vertices.
    proof fn lemma_chain_turned(
        self,
        a: Seq<Handle>,
        b: Seq<Handle>,
        k: int,
        start: Handle,
        j: nat,
    )
        requires
            0 <= k < a.len(),
            turned(a, b, k),
            self.chain(a, start, a.len()) == Some(start),
            j <= a.len(),
        ensures
            self.chain(b, self.ring(a, start, k), j) == Some(self.ring(a, start, k + j)),
        decreases j,
    {
        let n = a.len() as int;
        if j > 0 {
            let i = (j - 1) as nat;
            self.lemma_chain_turned(a, b, k, start, i);
            lemma_turned(a, b, k);
            let m = ahead_of(i as int, k, n);
            assert(b[i as int] == a[m]);
            self.lemma_chain_whole(a, start, m as nat);
            assert(self.ring(a, start, k + i) == self.chain(a, start, m as nat).unwrap());
            assert(self.ring(a, start, k + j) == self.chain(a, start, (m + 1) as nat).unwrap());
        }
    }

    /// A closed chain run the other way round runs through the same vertices.
    proof fn lemma_chain_turned_back(
        self,
        a: Seq<Handle>,
        b: Seq<Handle>,
        k: int,
        start: Handle,
        j: nat,
    )
        requires
            0 <= k < a.len(),
            turned_back(a, b, k),
            self.chain(a, start, a.len()) == Some(start),
            j <= a.len(),
        ensures
            self.chain(b, self.ring(a, start, k + 1), j) == Some(
                self.ring(a, start, k + 1 + a.len() - j),
            ),
        decreases j,
    {
        let n = a.len() as int;
        if j > 0 {
            let i = (j - 1) as nat;
            self.lemma_chain_turned_back(a, b, k, start, i);
            lemma_turned_back(a, b, k);
            let m = behind_of(i as int, k, n);
            assert(b[i as int] == a[m]);
            self.lemma_chain_whole(a, start, m as nat);
            let from = self.chain(a, start, m as nat).unwrap();
            let to = self.chain(a, start, (m + 1) as nat).unwrap();
            self.ends_at(a, m).lemma_across_back(from, to);
            assert(self.ring(a, start, k + 1 + n - i) == to);
            assert(self.ring(a, start, k + 1 + n - j) == from);
        }
    }

    /// A closed chain from `start` along `a` gives a closed chain along every
    /// sequence that is the same cycle.
    proof fn lemma_closed_from(self, a: Seq<Handle>, b: Seq<Handle>, start: Handle)
        requires
            a.len() > 0,
            same_cycle(a, b),
            self.chain(a, start, a.len()) == Some(start),
        ensures
            self.closed(b),
    {
        reveal(same_cycle);
        let n = a.len() as int;
        let k = choose|k: int| 0 <= k < a.len() && (turned(a, b, k) || turned_back(a, b, k));
        self.lemma_chain_whole(a, start, k as nat);
        let from = self.chain(a, start, k as nat).unwrap();
        let to = self.chain(a, start, (k + 1) as nat).unwrap();
        if turned(a, b, k) {
            lemma_turned(a, b, k);
            assert(b[0] == a[k]);
            self.lemma_chain_turned(a, b, k, start, a.len());
            assert(self.ring(a, start, k) == from);
            assert(self.ring(a, start, k + n) == from);
            assert(self.chain(b, from, b.len()) == Some(from));
        } else {
            lemma_turned_back(a, b, k);
            assert(b[0] == a[k]);
            self.lemma_chain_turned_back(a, b, k, start, a.len());
            self.ends_at(a, k).lemma_across_back(from, to);
            assert(self.ring(a, start, k + 1) == to);
            assert(self.chain(b, to, b.len()) == Some(to));
        }
    }

    /// A closed chain stays closed when it is begun at another edge or run the
    /// other way round.
    pub proof fn lemma_closed_same(self, a: Seq<Handle>, b: Seq<Handle>)
        requires
            same_cycle(a, b),
            self.closed(a),
        ensures
            self.closed(b),
    {
        match self.ends_at(a, 0) {
            Ends::Two(x, y) => {
                if self.chain(a, x, a.len()) == Some(x) {
                    self.lemma_closed_from(a, b, x);
                } else {
                    self.lemma_closed_from(a, b, y);
                }
            },
            _ => {
                reveal(same_cycle);
                let k = choose|k: int|
                    0 <= k < a.len() && (turned(a, b, k) || turned_back(a, b, k));
                lemma_turned(a, b, 0);
                lemma_turned_back(a, b, 0);
                assert(b[0] == a[0]);
            },
        }
    }
}

} // verus!
