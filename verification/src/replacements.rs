//! The trigger table: a map from trigger words to their replacements, kept in
//! the order of its keys.
use vstd::prelude::*;

use crate::text::to_chars;

verus! {

/// `a` stands before `b` in dictionary order.
pub open spec fn precedes(a: Seq<char>, b: Seq<char>) -> bool
    decreases a.len(),
{
    if b.len() == 0 {
        false
    } else if a.len() == 0 {
        true
    } else if a[0] == b[0] {
        precedes(a.drop_first(), b.drop_first())
    } else {
        a[0] < b[0]
    }
}

/// Dictionary order is a strict total order.
pub proof fn law_precedes_is_a_strict_order(a: Seq<char>, b: Seq<char>, c: Seq<char>)
    ensures
        !precedes(a, a),
        precedes(a, b) && precedes(b, c) ==> precedes(a, c),
        a == b || precedes(a, b) || precedes(b, a),
    decreases a.len() + b.len() + c.len(),
{
    if a.len() > 0 {
        let a1 = a.drop_first();
        let b1 = if b.len() > 0 {
            b.drop_first()
        } else {
            b
        };
        let c1 = if c.len() > 0 {
            c.drop_first()
        } else {
            c
        };
        law_precedes_is_a_strict_order(a1, b1, c1);
        if b.len() > 0 && a[0] == b[0] && a1 == b1 {
            assert(a =~= seq![a[0]] + a1);
            assert(b =~= seq![b[0]] + b1);
        }
    } else if b.len() == 0 {
        assert(a =~= b);
    }
}

/// Where one key stands relative to another.
#[derive(Debug, Clone, Copy, PartialEq, Eq, Structural)]
pub enum Rank {
    Before,
    Same,
    After,
}

/// Where `a` stands relative to `b` in dictionary order.
pub fn rank(a: &[char], b: &[char]) -> (r: Rank)
    ensures
        r == (if a@ == b@ {
            Rank::Same
        } else if precedes(a@, b@) {
            Rank::Before
        } else {
            Rank::After
        }),
{
    let mut i: usize = 0;
    assert(a@.skip(0) =~= a@);
    assert(b@.skip(0) =~= b@);
    while i < a.len() && i < b.len() && a[i] == b[i]
        invariant
            i <= a.len(),
            i <= b.len(),
            a@.take(i as int) == b@.take(i as int),
            precedes(a@, b@) == precedes(a@.skip(i as int), b@.skip(i as int)),
        decreases a.len() - i,
    {
        assert(a@.skip(i as int).drop_first() =~= a@.skip(i + 1));
        assert(b@.skip(i as int).drop_first() =~= b@.skip(i + 1));
        assert(a@.take(i + 1) =~= a@.take(i as int).push(a@[i as int]));
        assert(b@.take(i + 1) =~= b@.take(i as int).push(b@[i as int]));
        i = i + 1;
    }
    if i == a.len() && i == b.len() {
        assert(a@.take(i as int) =~= a@);
        assert(b@.take(i as int) =~= b@);
        Rank::Same
    } else if i == a.len() {
        Rank::Before
    } else if i == b.len() {
        Rank::After
    } else if a[i] < b[i] {
        Rank::Before
    } else {
        Rank::After
    }
}

/// The keys of the pairs stand in strictly increasing order, so none occurs twice.
pub open spec fn in_key_order(p: Seq<(Seq<char>, Seq<char>)>) -> bool {
    forall|i: int, j: int| 0 <= i < j < p.len() ==> #[trigger] precedes(p[i].0, p[j].0)
}

/// Some pair has the key `k`.
pub open spec fn has_key(p: Seq<(Seq<char>, Seq<char>)>, k: Seq<char>) -> bool {
    exists|i: int| 0 <= i < p.len() && (#[trigger] p[i]).0 == k
}

/// The value of a pair with the key `k`.
pub open spec fn value_at(p: Seq<(Seq<char>, Seq<char>)>, k: Seq<char>) -> Seq<char> {
    p[choose|i: int| 0 <= i < p.len() && (#[trigger] p[i]).0 == k].1
}

/// The map that the pairs describe.
pub open spec fn as_map(p: Seq<(Seq<char>, Seq<char>)>) -> Map<Seq<char>, Seq<char>> {
    Map::new(|k: Seq<char>| has_key(p, k), |k: Seq<char>| value_at(p, k))
}

/// The characters of both halves of each pair.
pub open spec fn pair_views(v: Seq<(String, String)>) -> Seq<(Seq<char>, Seq<char>)> {
    v.map_values(|e: (String, String)| (e.0@, e.1@))
}

/// In key order, an index is fixed by its key.
proof fn lemma_value_at(p: Seq<(Seq<char>, Seq<char>)>, i: int)
    requires
        in_key_order(p),
        0 <= i < p.len(),
    ensures
        has_key(p, p[i].0),
        value_at(p, p[i].0) == p[i].1,
{
    let k = p[i].0;
    assert(p[i].0 == k);
    let j = choose|j: int| 0 <= j < p.len() && (#[trigger] p[j]).0 == k;
    law_precedes_is_a_strict_order(k, k, k);
    if j < i {
        assert(precedes(p[j].0, p[i].0));
    } else if i < j {
        assert(precedes(p[i].0, p[j].0));
    }
}

/// In key order, each pair is what the map holds for its key.
pub proof fn law_lookup_by_index(p: Seq<(Seq<char>, Seq<char>)>, i: int)
    requires
        in_key_order(p),
        0 <= i < p.len(),
    ensures
        as_map(p).contains_key(p[i].0),
        as_map(p)[p[i].0] == p[i].1,
{
    lemma_value_at(p, i);
}

/// In key order, the last pair extends the map of those before it.
pub proof fn law_last_pair_extends_the_map(p: Seq<(Seq<char>, Seq<char>)>)
    requires
        in_key_order(p),
        p.len() > 0,
    ensures
        in_key_order(p.drop_last()),
        as_map(p) == as_map(p.drop_last()).insert(p.last().0, p.last().1),
{
    let front = p.drop_last();
    let n = p.len() - 1;
    assert(front.insert(n, p.last()) =~= p);
    assert forall|i: int, j: int| 0 <= i < j < front.len() implies #[trigger] precedes(
        front[i].0,
        front[j].0,
    ) by {
        assert(precedes(p[i].0, p[j].0));
    }
    assert forall|j: int| 0 <= j < n implies precedes(#[trigger] front[j].0, p.last().0) by {
        assert(precedes(p[j].0, p[n].0));
    }
    if has_key(front, p.last().0) {
        let i = choose|i: int| 0 <= i < front.len() && (#[trigger] front[i]).0 == p.last().0;
        law_precedes_is_a_strict_order(p.last().0, p.last().0, p.last().0);
        assert(precedes(p[i].0, p[n].0));
    }
    lemma_put(front, p, n, p.last(), false);
}

/// Two tables in key order with the same contents hold the same pairs in the same places.
pub proof fn law_order_is_canonical(
    p: Seq<(Seq<char>, Seq<char>)>,
    q: Seq<(Seq<char>, Seq<char>)>,
)
    requires
        in_key_order(p),
        in_key_order(q),
        as_map(p) == as_map(q),
    ensures
        p == q,
    decreases p.len() + q.len(),
{
    if p.len() == 0 || q.len() == 0 {
        if p.len() > 0 {
            lemma_value_at(p, 0);
            assert(as_map(p).contains_key(p[0].0));
        }
        if q.len() > 0 {
            lemma_value_at(q, 0);
            assert(as_map(q).contains_key(q[0].0));
        }
        assert(p =~= q);
    } else {
        let a = p.last();
        let b = q.last();
        lemma_value_at(p, p.len() - 1);
        lemma_value_at(q, q.len() - 1);
        assert(as_map(p).contains_key(a.0) && as_map(q).contains_key(b.0));
        let i = choose|i: int| 0 <= i < q.len() && (#[trigger] q[i]).0 == a.0;
        let j = choose|j: int| 0 <= j < p.len() && (#[trigger] p[j]).0 == b.0;
        if i < q.len() - 1 {
            assert(precedes(q[i].0, b.0));
            if j < p.len() - 1 {
                assert(precedes(p[j].0, a.0));
                law_precedes_is_a_strict_order(a.0, b.0, a.0);
            } else {
                law_precedes_is_a_strict_order(a.0, a.0, a.0);
            }
        }
        assert(a.0 == b.0);
        assert(as_map(p)[a.0] == a.1 && as_map(q)[b.0] == b.1);
        let p1 = p.drop_last();
        let q1 = q.drop_last();
        assert forall|k: Seq<char>| has_key(p1, k) implies has_key(q1, k) && value_at(q1, k)
            == value_at(p1, k) by {
            lemma_drop_last(p, q, k);
        }
        assert forall|k: Seq<char>| has_key(q1, k) implies has_key(p1, k) by {
            lemma_drop_last(q, p, k);
        }
        assert(as_map(p1) =~= as_map(q1));
        law_order_is_canonical(p1, q1);
        assert(p =~= p1.push(a));
        assert(q =~= q1.push(b));
    }
}

proof fn lemma_drop_last(
    p: Seq<(Seq<char>, Seq<char>)>,
    q: Seq<(Seq<char>, Seq<char>)>,
    k: Seq<char>,
)
    requires
        in_key_order(p),
        in_key_order(q),
        as_map(p) == as_map(q),
        p.len() > 0,
        q.len() > 0,
        p.last() == q.last(),
        has_key(p.drop_last(), k),
    ensures
        has_key(q.drop_last(), k),
        value_at(q.drop_last(), k) == value_at(p.drop_last(), k),
{
    let p1 = p.drop_last();
    let q1 = q.drop_last();
    let i = choose|i: int| 0 <= i < p1.len() && (#[trigger] p1[i]).0 == k;
    assert(p[i] == p1[i]);
    lemma_value_at(p, i);
    lemma_value_at(p1, i);
    assert(as_map(p).contains_key(k));
    assert(as_map(q).contains_key(k));
    let j = choose|j: int| 0 <= j < q.len() && (#[trigger] q[j]).0 == k;
    assert(precedes(p[i].0, p.last().0));
    law_precedes_is_a_strict_order(k, k, k);
    assert(j < q.len() - 1);
    assert(q1[j] == q[j]);
    lemma_value_at(q, j);
    lemma_value_at(q1, j);
    assert(as_map(p)[k] == as_map(q)[k]);
}

/// Trigger words and their replacements.
#[derive(Debug, PartialEq, Eq)]
pub struct Replacements {
    entries: Vec<(String, String)>,
}

impl Clone for Replacements {
    fn clone(&self) -> (r: Self)
        ensures
            r.pairs() == self.pairs(),
    {
        proof {
            use_type_invariant(&*self);
        }
        let mut entries: Vec<(String, String)> = Vec::new();
        for i in 0..self.entries.len()
            invariant
                entries@ == self.entries@.take(i as int),
        {
            entries.push((self.entries[i].0.clone(), self.entries[i].1.clone()));
        }
        assert(entries@ =~= self.entries@);
        Replacements { entries }
    }
}

impl View for Replacements {
    type V = Map<Seq<char>, Seq<char>>;

    open spec fn view(&self) -> Map<Seq<char>, Seq<char>> {
        as_map(self.pairs())
    }
}

impl Replacements {
    /// The pairs of trigger and replacement, in the order of the triggers.
    pub closed spec fn pairs(&self) -> Seq<(Seq<char>, Seq<char>)> {
        pair_views(self.entries@)
    }

    #[verifier::type_invariant]
    spec fn ordered(&self) -> bool {
        in_key_order(pair_views(self.entries@))
    }

    /// An empty table.
    pub fn new() -> (r: Self)
        ensures
            r.pairs() == Seq::<(Seq<char>, Seq<char>)>::empty(),
            r@ == Map::<Seq<char>, Seq<char>>::empty(),
    {
        let r = Replacements { entries: Vec::new() };
        assert(r.pairs() =~= Seq::<(Seq<char>, Seq<char>)>::empty());
        assert(r@ =~= Map::<Seq<char>, Seq<char>>::empty());
        r
    }

    /// The number of triggers.
    pub fn len(&self) -> (r: usize)
        ensures
            r == self.pairs().len(),
            in_key_order(self.pairs()),
    {
        proof {
            use_type_invariant(&*self);
        }
        self.entries.len()
    }

    /// True when there is no trigger.
    pub fn is_empty(&self) -> (r: bool)
        ensures
            r == (self.pairs().len() == 0),
    {
        self.entries.len() == 0
    }

    /// The pairs of trigger and replacement, in the order of the triggers.
    pub fn entries(&self) -> (r: &Vec<(String, String)>)
        ensures
            pair_views(r@) == self.pairs(),
            in_key_order(self.pairs()),
    {
        proof {
            use_type_invariant(&*self);
        }
        &self.entries
    }

    /// The first index whose key does not stand before `key`, and whether it has that key.
    fn locate(entries: &Vec<(String, String)>, key: &[char]) -> (r: (usize, bool))
        requires
            in_key_order(pair_views(entries@)),
        ensures
            r.0 <= entries.len(),
            forall|j: int| 0 <= j < r.0 ==> precedes(#[trigger] pair_views(entries@)[j].0, key@),
            forall|j: int|
                r.0 < j < entries.len() ==> precedes(key@, #[trigger] pair_views(entries@)[j].0),
            r.1 ==> r.0 < entries.len() && pair_views(entries@)[r.0 as int].0 == key@,
            !r.1 && r.0 < entries.len() ==> precedes(
                key@,
                pair_views(entries@)[r.0 as int].0,
            ),
            r.1 == has_key(pair_views(entries@), key@),
    {
        let ghost p = pair_views(entries@);
        let mut i: usize = 0;
        while i < entries.len()
            invariant
                p == pair_views(entries@),
                in_key_order(p),
                i <= entries.len(),
                forall|j: int| 0 <= j < i ==> precedes(#[trigger] p[j].0, key@),
            decreases entries.len() - i,
        {
            let here = to_chars(entries[i].0.as_str());
            let standing = rank(here.as_slice(), key);
            assert(p[i as int].0 == here@);
            if standing != Rank::Before {
                proof {
                    assert forall|j: int| i < j < p.len() implies precedes(
                        key@,
                        #[trigger] p[j].0,
                    ) by {
                        assert(precedes(p[i as int].0, p[j].0));
                        law_precedes_is_a_strict_order(key@, p[i as int].0, p[j].0);
                    }
                    law_precedes_is_a_strict_order(key@, p[i as int].0, key@);
                    if standing != Rank::Same && has_key(p, key@) {
                        let j = choose|j: int| 0 <= j < p.len() && (#[trigger] p[j]).0 == key@;
                        law_precedes_is_a_strict_order(key@, key@, key@);
                        assert(false);
                    }
                    if standing == Rank::Same {
                        assert(p[i as int].0 == key@);
                    }
                }
                return (i, standing == Rank::Same);
            }
            i = i + 1;
        }
        proof {
            if has_key(p, key@) {
                let j = choose|j: int| 0 <= j < p.len() && (#[trigger] p[j]).0 == key@;
                law_precedes_is_a_strict_order(key@, key@, key@);
                assert(false);
            }
        }
        (i, false)
    }

    /// The replacement of a trigger.
    pub fn get(&self, trigger: &[char]) -> (r: Option<&String>)
        ensures
            match r {
                Some(v) => self@.contains_key(trigger@) && v@ == self@[trigger@],
                None => !self@.contains_key(trigger@),
            },
    {
        proof {
            use_type_invariant(&*self);
        }
        let (i, found) = Self::locate(&self.entries, trigger);
        if found {
            proof {
                lemma_value_at(self.pairs(), i as int);
            }
            Some(&self.entries[i].1)
        } else {
            None
        }
    }

    /// Adds a trigger, or gives an existing one a new replacement.
    pub fn insert(&mut self, trigger: String, replacement: String)
        ensures
            final(self)@ == old(self)@.insert(trigger@, replacement@),
    {
        proof {
            use_type_invariant(&*self);
        }
        let ghost p = self.pairs();
        let ghost pair = (trigger@, replacement@);
        let mut entries: Vec<(String, String)> = Vec::new();
        std::mem::swap(&mut entries, &mut self.entries);
        let key = to_chars(trigger.as_str());
        let (i, found) = Self::locate(&entries, key.as_slice());
        if found {
            entries.remove(i);
        }
        entries.insert(i, (trigger, replacement));
        proof {
            let q = pair_views(entries@);
            if found {
                assert(q =~= p.update(i as int, pair));
            } else {
                assert(q =~= p.insert(i as int, pair));
            }
            lemma_put(p, q, i as int, pair, found);
        }
        self.entries = entries;
    }

    /// Takes a trigger out, and tells its replacement if it was there.
    pub fn remove(&mut self, trigger: &str) -> (r: Option<String>)
        ensures
            final(self)@ == old(self)@.remove(trigger@),
            match r {
                Some(v) => old(self)@.contains_key(trigger@) && v@ == old(self)@[trigger@],
                None => !old(self)@.contains_key(trigger@) && final(self).pairs() == old(
                    self,
                ).pairs(),
            },
    {
        proof {
            use_type_invariant(&*self);
        }
        let ghost p = self.pairs();
        let mut entries: Vec<(String, String)> = Vec::new();
        std::mem::swap(&mut entries, &mut self.entries);
        let key = to_chars(trigger);
        let (i, found) = Self::locate(&entries, key.as_slice());
        if found {
            let taken = entries.remove(i);
            proof {
                let q = pair_views(entries@);
                assert(q =~= p.remove(i as int));
                lemma_take(p, q, i as int);
                lemma_value_at(p, i as int);
            }
            self.entries = entries;
            Some(taken.1)
        } else {
            self.entries = entries;
            assert(as_map(p) =~= as_map(p).remove(trigger@));
            None
        }
    }
}

proof fn lemma_put(
    p: Seq<(Seq<char>, Seq<char>)>,
    q: Seq<(Seq<char>, Seq<char>)>,
    i: int,
    pair: (Seq<char>, Seq<char>),
    found: bool,
)
    requires
        in_key_order(p),
        0 <= i <= p.len(),
        found ==> i < p.len() && p[i].0 == pair.0 && q == p.update(i, pair),
        !found ==> q == p.insert(i, pair) && !has_key(p, pair.0),
        forall|j: int| 0 <= j < i ==> precedes(#[trigger] p[j].0, pair.0),
        forall|j: int| i < j < p.len() ==> precedes(pair.0, #[trigger] p[j].0),
        !found && i < p.len() ==> precedes(pair.0, p[i].0),
    ensures
        in_key_order(q),
        as_map(q) == as_map(p).insert(pair.0, pair.1),
{
    assert forall|a: int, b: int| 0 <= a < b < q.len() implies #[trigger] precedes(
        q[a].0,
        q[b].0,
    ) by {
        let x = if found || a < i {
            a
        } else {
            a - 1
        };
        let y = if found || b < i {
            b
        } else {
            b - 1
        };
        if a == i {
            assert(precedes(pair.0, p[y].0));
        } else if b == i {
            assert(precedes(p[x].0, pair.0));
        } else {
            assert(precedes(p[x].0, p[y].0));
        }
    }
    lemma_value_at(q, i);
    assert forall|k: Seq<char>| k != pair.0 implies has_key(q, k) == has_key(p, k) && (has_key(
        p,
        k,
    ) ==> value_at(q, k) == value_at(p, k)) by {
        if has_key(p, k) {
            let a = choose|a: int| 0 <= a < p.len() && (#[trigger] p[a]).0 == k;
            let x = if found || a < i {
                a
            } else {
                a + 1
            };
            assert(q[x] == p[a]);
            lemma_value_at(q, x);
            lemma_value_at(p, a);
        }
        if has_key(q, k) {
            let a = choose|a: int| 0 <= a < q.len() && (#[trigger] q[a]).0 == k;
            let x = if found || a < i {
                a
            } else {
                a - 1
            };
            assert(a != i);
            assert(p[x] == q[a]);
        }
    }
    assert(as_map(q) =~= as_map(p).insert(pair.0, pair.1));
}

proof fn lemma_take(
    p: Seq<(Seq<char>, Seq<char>)>,
    q: Seq<(Seq<char>, Seq<char>)>,
    i: int,
)
    requires
        in_key_order(p),
        0 <= i < p.len(),
        q == p.remove(i),
    ensures
        in_key_order(q),
        as_map(q) == as_map(p).remove(p[i].0),
{
    assert forall|a: int, b: int| 0 <= a < b < q.len() implies #[trigger] precedes(
        q[a].0,
        q[b].0,
    ) by {
        let x = if a < i {
            a
        } else {
            a + 1
        };
        let y = if b < i {
            b
        } else {
            b + 1
        };
        assert(precedes(p[x].0, p[y].0));
    }
    assert forall|k: Seq<char>| has_key(q, k) == (has_key(p, k) && k != p[i].0) && (has_key(
        q,
        k,
    ) ==> value_at(q, k) == value_at(p, k)) by {
        if has_key(q, k) {
            let a = choose|a: int| 0 <= a < q.len() && (#[trigger] q[a]).0 == k;
            let x = if a < i {
                a
            } else {
                a + 1
            };
            assert(p[x] == q[a]);
            lemma_value_at(q, a);
            lemma_value_at(p, x);
            law_precedes_is_a_strict_order(k, k, k);
            if x < i {
                assert(precedes(p[x].0, p[i].0));
            } else {
                assert(precedes(p[i].0, p[x].0));
            }
        }
        if has_key(p, k) && k != p[i].0 {
            let a = choose|a: int| 0 <= a < p.len() && (#[trigger] p[a]).0 == k;
            let x = if a < i {
                a
            } else {
                a - 1
            };
            assert(q[x] == p[a]);
        }
    }
    assert(as_map(q) =~= as_map(p).remove(p[i].0));
}

/// Dictionary order goes by the first character that differs, and a word stands before the longer
/// ones that begin with it.
pub proof fn law_dictionary_order_goes_by_the_first_difference(
    common: Seq<char>,
    x: char,
    a: Seq<char>,
    y: char,
    b: Seq<char>,
)
    ensures
        x < y ==> precedes(common + seq![x] + a, common + seq![y] + b),
        x < y ==> !precedes(common + seq![y] + b, common + seq![x] + a),
        precedes(common, common + seq![y] + b),
        !precedes(common + seq![y] + b, common),
    decreases common.len(),
{
    let p = common + seq![x] + a;
    let q = common + seq![y] + b;
    if common.len() == 0 {
        assert(p[0] == x && q[0] == y);
    } else {
        let rest = common.drop_first();
        law_dictionary_order_goes_by_the_first_difference(rest, x, a, y, b);
        assert(p[0] == common[0] && q[0] == common[0]);
        assert(p.drop_first() =~= rest + seq![x] + a);
        assert(q.drop_first() =~= rest + seq![y] + b);
    }
}

/// The map of the pairs holds each key of theirs with its value, and no other key.
pub proof fn law_the_map_holds_the_pairs(p: Seq<(Seq<char>, Seq<char>)>, k: Seq<char>)
    requires
        in_key_order(p),
    ensures
        as_map(p).contains_key(k) <==> exists|i: int| 0 <= i < p.len() && (#[trigger] p[i]).0 == k,
        forall|i: int|
            0 <= i < p.len() && (#[trigger] p[i]).0 == k ==> as_map(p)[k] == p[i].1,
{
    assert forall|i: int| 0 <= i < p.len() && (#[trigger] p[i]).0 == k implies as_map(p)[k]
        == p[i].1 by {
        law_lookup_by_index(p, i);
    }
}

} // verus!
