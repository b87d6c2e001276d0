//! The validator registry: who may be ranked for block production, and by
//! how many votes.

use crate::text::copy_bytes;
use vstd::prelude::*;
use vstd::string::*;

verus! {

/// A registered validator: its name, its verification key as raw bytes, and
/// the votes it has gathered.
#[derive(Debug)]
pub struct Validator {
    pub name: String,
    pub public_key: Vec<u8>,
    pub votes: u64,
}

/// The mathematical content of a [`Validator`].
pub ghost struct ValidatorView {
    pub name: Seq<char>,
    pub public_key: Seq<u8>,
    pub votes: u64,
}

impl View for Validator {
    type V = ValidatorView;

    open spec fn view(&self) -> ValidatorView {
        ValidatorView { name: self.name@, public_key: self.public_key@, votes: self.votes }
    }
}

impl Clone for Validator {
    fn clone(&self) -> (r: Self)
        ensures
            r@ == self@,
    {
        Validator {
            name: self.name.clone(),
            public_key: copy_bytes(self.public_key.as_slice()),
            votes: self.votes,
        }
    }
}

/// The validators of a registry, in the order in which they registered.
#[derive(Debug)]
pub struct ValidatorRegistry {
    pub validators: Vec<Validator>,
}

/// The views of a sequence of validators, in order.
pub open spec fn validator_views(s: Seq<Validator>) -> Seq<ValidatorView> {
    s.map_values(|v: Validator| v@)
}

/// Whether a validator called `name` is among `s`.
pub open spec fn registered(s: Seq<ValidatorView>, name: Seq<char>) -> bool {
    exists|i: int| 0 <= i < s.len() && #[trigger] s[i].name == name
}

/// Whether no name occurs twice in `s`.
pub open spec fn distinct_names(s: Seq<ValidatorView>) -> bool {
    forall|i: int, j: int| 0 <= i < j < s.len() ==> s[i].name != s[j].name
}

/// `s` after a registration of `name` with `public_key`: a new validator
/// without votes at the end, or `s` itself where the name is taken.
pub open spec fn after_register(
    s: Seq<ValidatorView>,
    name: Seq<char>,
    public_key: Seq<u8>,
) -> Seq<ValidatorView> {
    if registered(s, name) {
        s
    } else {
        s.push(ValidatorView { name, public_key, votes: 0 })
    }
}

/// `v` with one more vote if it is called `name`, else `v`.
pub open spec fn with_vote(v: ValidatorView, name: Seq<char>) -> ValidatorView {
    if v.name == name {
        ValidatorView { votes: (v.votes + 1) as u64, ..v }
    } else {
        v
    }
}

/// `s` after one vote for `name`.
pub open spec fn after_vote(s: Seq<ValidatorView>, name: Seq<char>) -> Seq<ValidatorView> {
    s.map_values(|v: ValidatorView| with_vote(v, name))
}

/// Whether a vote for `name` keeps every counter within 64 bits.
pub open spec fn vote_fits(s: Seq<ValidatorView>, name: Seq<char>) -> bool {
    forall|i: int| 0 <= i < s.len() && #[trigger] s[i].name == name ==> s[i].votes < u64::MAX
}

/// A ranking with `v` put in: behind every entry with at least as many
/// votes, before the others.
pub open spec fn rank_insert(ranked: Seq<ValidatorView>, v: ValidatorView) -> Seq<ValidatorView>
    decreases ranked.len(),
{
    if ranked.len() == 0 || ranked.last().votes >= v.votes {
        ranked.push(v)
    } else {
        rank_insert(ranked.drop_last(), v).push(ranked.last())
    }
}

/// The validators of `s` by descending votes; those with equal votes stay
/// in the order in which they registered.
pub open spec fn ranking(s: Seq<ValidatorView>) -> Seq<ValidatorView>
    decreases s.len(),
{
    if s.len() == 0 {
        Seq::empty()
    } else {
        rank_insert(ranking(s.drop_last()), s.last())
    }
}

/// The entries of `s` that have exactly `votes` votes, in the order of `s`.
pub open spec fn with_votes(s: Seq<ValidatorView>, votes: u64) -> Seq<ValidatorView>
    decreases s.len(),
{
    if s.len() == 0 {
        Seq::empty()
    } else if s.last().votes == votes {
        with_votes(s.drop_last(), votes).push(s.last())
    } else {
        with_votes(s.drop_last(), votes)
    }
}

/// Whether the votes of `s` never rise from one entry to the next.
pub open spec fn descending(s: Seq<ValidatorView>) -> bool {
    forall|i: int, j: int| 0 <= i < j < s.len() ==> s[i].votes >= s[j].votes
}

/// The first `count` entries of the ranking of `s`, or all where there are
/// fewer.
pub open spec fn top_ranked(s: Seq<ValidatorView>, count: nat) -> Seq<ValidatorView> {
    if count <= s.len() {
        ranking(s).take(count as int)
    } else {
        ranking(s)
    }
}

/// Where a validator goes into a ranking: before the trailing entries with
/// fewer votes, behind all others.
proof fn lemma_rank_insert_at(ranked: Seq<ValidatorView>, v: ValidatorView, pos: int)
    requires
        0 <= pos <= ranked.len(),
        forall|j: int| pos <= j < ranked.len() ==> ranked[j].votes < v.votes,
        pos == 0 || ranked[pos - 1].votes >= v.votes,
    ensures
        rank_insert(ranked, v) == ranked.insert(pos, v),
    decreases ranked.len() - pos,
{
    if pos == ranked.len() {
        assert(ranked.push(v) =~= ranked.insert(pos, v));
    } else {
        lemma_rank_insert_at(ranked.drop_last(), v, pos);
        assert(ranked.drop_last().insert(pos, v).push(ranked.last()) =~= ranked.insert(pos, v));
    }
}

/// Putting a validator into a ranking adds one entry, keeps all that were
/// there, and keeps the ranking descending.
pub proof fn lemma_rank_insert(ranked: Seq<ValidatorView>, v: ValidatorView)
    ensures
        rank_insert(ranked, v).len() == ranked.len() + 1,
        rank_insert(ranked, v).to_multiset() == ranked.to_multiset().insert(v),
        descending(ranked) ==> descending(rank_insert(ranked, v)),
    decreases ranked.len(),
{
    broadcast use vstd::seq_lib::group_to_multiset_ensures;

    if ranked.len() == 0 || ranked.last().votes >= v.votes {
    } else {
        let init = ranked.drop_last();
        let last = ranked.last();
        lemma_rank_insert(init, v);
        assert(init.push(last) =~= ranked);
        assert(rank_insert(ranked, v).to_multiset() =~= ranked.to_multiset().insert(v));
        if descending(ranked) {
            let inner = rank_insert(init, v);
            assert(descending(init));
            assert forall|i: int| 0 <= i < inner.len() implies inner[i].votes >= last.votes by {
                assert(inner.to_multiset().count(inner[i]) > 0);
                if inner[i] != v {
                    assert(init.to_multiset().count(inner[i]) > 0);
                    let k = choose|k: int| 0 <= k < init.len() && init[k] == inner[i];
                    assert(ranked[k] == init[k]);
                }
            }
        }
    }
}

/// Putting a validator into a ranking leaves the entries with any one number
/// of votes in their order, with the new one behind its equals.
pub proof fn lemma_rank_insert_stable(ranked: Seq<ValidatorView>, v: ValidatorView, votes: u64)
    ensures
        with_votes(rank_insert(ranked, v), votes) == if v.votes == votes {
            with_votes(ranked, votes).push(v)
        } else {
            with_votes(ranked, votes)
        },
    decreases ranked.len(),
{
    if ranked.len() == 0 || ranked.last().votes >= v.votes {
        assert(ranked.push(v).drop_last() =~= ranked);
    } else {
        let init = ranked.drop_last();
        let inner = rank_insert(init, v);
        lemma_rank_insert_stable(init, v, votes);
        assert(inner.push(ranked.last()).drop_last() =~= inner);
    }
}

/// Validators with equal votes stand in the ranking in the order in which
/// they registered.
pub proof fn lemma_ranking_stable(s: Seq<ValidatorView>, votes: u64)
    ensures
        with_votes(ranking(s), votes) == with_votes(s, votes),
    decreases s.len(),
{
    if s.len() > 0 {
        lemma_ranking_stable(s.drop_last(), votes);
        lemma_rank_insert_stable(ranking(s.drop_last()), s.last(), votes);
    }
}

/// The ranking holds exactly the validators of the registry, each as often
/// as it is there, and its votes never rise from one entry to the next.
pub proof fn lemma_ranking(s: Seq<ValidatorView>)
    ensures
        ranking(s).len() == s.len(),
        ranking(s).to_multiset() == s.to_multiset(),
        descending(ranking(s)),
    decreases s.len(),
{
    broadcast use vstd::seq_lib::group_to_multiset_ensures;

    if s.len() > 0 {
        lemma_ranking(s.drop_last());
        lemma_rank_insert(ranking(s.drop_last()), s.last());
        assert(s.drop_last().push(s.last()) =~= s);
    }
}

/// A second registration under one name is refused and changes nothing: the
/// first decides, and the votes stay as they were.
pub proof fn lemma_register_idempotent(
    s: Seq<ValidatorView>,
    name: Seq<char>,
    first_key: Seq<u8>,
    second_key: Seq<u8>,
)
    ensures
        registered(after_register(s, name, first_key), name),
        after_register(after_register(s, name, first_key), name, second_key) == after_register(
            s,
            name,
            first_key,
        ),
{
    let once = after_register(s, name, first_key);
    if !registered(s, name) {
        assert(once[s.len() as int].name == name);
    }
}

/// A vote never lowers a counter, and raises only that of the validator
/// voted for, by one.
pub proof fn lemma_vote_monotone(s: Seq<ValidatorView>, name: Seq<char>, i: int)
    requires
        0 <= i < s.len(),
        vote_fits(s, name),
    ensures
        after_vote(s, name).len() == s.len(),
        after_vote(s, name)[i].name == s[i].name,
        after_vote(s, name)[i].public_key == s[i].public_key,
        after_vote(s, name)[i].votes == s[i].votes + (if s[i].name == name {
            1int
        } else {
            0int
        }),
{
}

impl View for ValidatorRegistry {
    type V = Seq<ValidatorView>;

    open spec fn view(&self) -> Seq<ValidatorView> {
        validator_views(self.validators@)
    }
}

impl Default for ValidatorRegistry {
    fn default() -> (r: Self)
        ensures
            r.wf(),
            r@ == Seq::<ValidatorView>::empty(),
    {
        ValidatorRegistry::new()
    }
}

impl ValidatorRegistry {
    /// Whether the registry is well formed: no name occurs twice.
    pub open spec fn wf(&self) -> bool {
        distinct_names(self@)
    }

    /// An empty registry.
    pub fn new() -> (r: ValidatorRegistry)
        ensures
            r.wf(),
            r@ == Seq::<ValidatorView>::empty(),
    {
        let r = ValidatorRegistry { validators: Vec::new() };
        proof {
            assert(r@ =~= Seq::<ValidatorView>::empty());
        }
        r
    }

    /// Where the validator called `name` stands, if it is registered.
    fn position(&self, name: &String) -> (r: Option<usize>)
        ensures
            match r {
                Some(i) => i < self@.len() && self@[i as int].name == name@,
                None => !registered(self@, name@),
            },
    {
        let mut i: usize = 0;
        while i < self.validators.len()
            invariant
                i <= self.validators@.len(),
                forall|j: int| 0 <= j < i ==> self@[j].name != name@,
            decreases self.validators@.len() - i,
        {
            if self.validators[i].name == *name {
                return Some(i);
            }
            i += 1;
        }
        None
    }

    /// Registers `name` with `public_key` and no votes. Returns `false`, and
    /// changes nothing, where the name is already registered.
    pub fn register(&mut self, name: String, public_key: Vec<u8>) -> (r: bool)
        requires
            old(self).wf(),
        ensures
            final(self).wf(),
            r == !registered(old(self)@, name@),
            final(self)@ == after_register(old(self)@, name@, public_key@),
    {
        if self.position(&name).is_some() {
            return false;
        }
        let v = Validator { name, public_key, votes: 0 };
        self.validators.push(v);
        proof {
            assert(self@ =~= old(self)@.push(v@));
        }
        true
    }

    /// Gives the validator called `name` one more vote. Returns `false`, and
    /// changes nothing, where no such validator is registered.
    pub fn vote(&mut self, name: &str) -> (r: bool)
        requires
            old(self).wf(),
            vote_fits(old(self)@, name@),
        ensures
            final(self).wf(),
            r == registered(old(self)@, name@),
            final(self)@ == after_vote(old(self)@, name@),
    {
        let key = name.to_owned();
        match self.position(&key) {
            Some(i) => {
                let v = Validator {
                    name: self.validators[i].name.clone(),
                    public_key: copy_bytes(self.validators[i].public_key.as_slice()),
                    votes: self.validators[i].votes + 1,
                };
                self.validators[i] = v;
                proof {
                    assert(self@ =~= after_vote(old(self)@, name@));
                }
                true
            },
            None => {
                proof {
                    assert(self@ =~= after_vote(old(self)@, name@));
                }
                false
            },
        }
    }

    /// The `count` validators with the most votes, most votes first, as
    /// copies; all of them where fewer are registered. Validators with equal
    /// votes come in the order in which they registered.
    pub fn top_validators(&self, count: usize) -> (r: Vec<Validator>)
        ensures
            validator_views(r@) == top_ranked(self@, count as nat),
            r@.len() == if count <= self@.len() { count as int } else { self@.len() as int },
            descending(validator_views(r@)),
    {
        let mut list: Vec<Validator> = Vec::new();
        let n: usize = self.validators.len();
        let mut i: usize = 0;
        proof {
            assert(self@.take(0) =~= Seq::<ValidatorView>::empty());
            assert(validator_views(list@) =~= ranking(self@.take(0)));
        }
        while i < n
            invariant
                i <= n,
                n == self.validators@.len(),
                validator_views(list@) == ranking(self@.take(i as int)),
            decreases n - i,
        {
            let v = self.validators[i].clone();
            proof {
                lemma_ranking(self@.take(i as int));
            }
            let mut pos: usize = list.len();
            while pos > 0 && list[pos - 1].votes < v.votes
                invariant
                    pos <= list@.len(),
                    forall|j: int| pos <= j < list@.len() ==> list@[j].votes < v.votes,
                decreases pos,
            {
                pos -= 1;
            }
            proof {
                let ranked = validator_views(list@);
                let t = self@.take(i + 1);
                assert(t.drop_last() =~= self@.take(i as int));
                assert(t.last() == v@);
                lemma_rank_insert_at(ranked, v@, pos as int);
                assert(validator_views(list@.insert(pos as int, v)) =~= ranked.insert(
                    pos as int,
                    v@,
                ));
            }
            list.insert(pos, v);
            i += 1;
        }
        proof {
            assert(self@.take(n as int) =~= self@);
            lemma_ranking(self@);
            if count <= n {
                assert(validator_views(list@.subrange(0, count as int)) =~= ranking(self@).take(
                    count as int,
                ));
            }
        }
        list.truncate(count);
        list
    }

    /// Whether `name` is among the `count` validators with the most votes.
    pub fn is_top_validator(&self, name: &str, count: usize) -> (r: bool)
        ensures
            r == registered(top_ranked(self@, count as nat), name@),
    {
        let top = self.top_validators(count);
        let key = name.to_owned();
        let mut i: usize = 0;
        while i < top.len()
            invariant
                i <= top@.len(),
                key@ == name@,
                validator_views(top@) == top_ranked(self@, count as nat),
                forall|j: int| 0 <= j < i ==> validator_views(top@)[j].name != name@,
            decreases top@.len() - i,
        {
            if top[i].name == key {
                proof {
                    assert(validator_views(top@)[i as int].name == name@);
                }
                return true;
            }
            i += 1;
        }
        false
    }
}

} // verus!
