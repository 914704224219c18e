use vstd::prelude::*;

use crate::generator::ALIAS_LEN;
use crate::generator::AliasGenerator;
use crate::generator::candidate_seq;
use crate::model::InsertOutcome;
use crate::model::Mapping;
use crate::model::UrlError;
use crate::store::MemStore;

verus! {

/// Retry budget of `create`: the number of candidate aliases tried before a
/// collision is surfaced as a conflict.
pub const MAX_ATTEMPTS: u64 = 5;

/// Every candidate within the retry budget already keys a mapping.
pub open spec fn all_candidates_taken(
    m: Map<Seq<char>, Seq<char>>,
    salt: u64,
    url: Seq<char>,
) -> bool {
    forall|i: u64| i < MAX_ATTEMPTS ==> m.contains_key(#[trigger] candidate_seq(salt, url, i))
}

/// Attempt `i` is within the budget and the first whose candidate is absent
/// from the map.
pub open spec fn first_free_attempt(
    m: Map<Seq<char>, Seq<char>>,
    salt: u64,
    url: Seq<char>,
    i: u64,
) -> bool {
    &&& i < MAX_ATTEMPTS
    &&& !m.contains_key(candidate_seq(salt, url, i))
    &&& forall|j: u64| j < i ==> m.contains_key(#[trigger] candidate_seq(salt, url, j))
}

/// What a successful `create` does to the store: the returned mapping's
/// alias was free before and keys the mapping's long URL afterwards.
pub open spec fn created(
    m0: Map<Seq<char>, Seq<char>>,
    m1: Map<Seq<char>, Seq<char>>,
    mp: Mapping,
) -> bool {
    &&& !m0.contains_key(mp.alias@)
    &&& m1 == m0.insert(mp.alias@, mp.long_url@)
}

/// What `lookup` yields on a given store map: the stored long URL, or
/// nothing for an alias never inserted.
pub open spec fn lookup_spec(m: Map<Seq<char>, Seq<char>>, a: Seq<char>) -> Option<Seq<char>> {
    if m.contains_key(a) {
        Some(m[a])
    } else {
        None
    }
}

/// What the manager does next after one insertion attempt.
#[derive(Clone, Copy, Debug, PartialEq, Eq, Structural)]
pub enum CreateStep {
    /// The candidate was stored: succeed with it.
    Accept,
    /// The candidate collided and budget remains: retry with the next one.
    Retry,
    /// The candidate collided on the last attempt: give up as a conflict.
    GiveUp,
    /// The storage layer failed: give up as an internal failure.
    Fail,
}

/// The decision `create` takes on one insertion outcome.
pub open spec fn next_step_spec(outcome: InsertOutcome, attempt: u64) -> CreateStep {
    match outcome {
        InsertOutcome::Inserted => CreateStep::Accept,
        InsertOutcome::AlreadyExists => if attempt + 1 < MAX_ATTEMPTS {
            CreateStep::Retry
        } else {
            CreateStep::GiveUp
        },
        InsertOutcome::StorageError => CreateStep::Fail,
    }
}

/// The collision and failure policy of `create`, as a pure decision on one
/// insertion outcome. A caller that drives a store living behind I/O runs
/// the same loop as `create`: perform the insertion there, hand the outcome
/// and the attempt number here, and act on the returned step.
pub fn next_step(outcome: InsertOutcome, attempt: u64) -> (r: CreateStep)
    requires
        attempt < MAX_ATTEMPTS,
    ensures
        r == next_step_spec(outcome, attempt),
{
    match outcome {
        InsertOutcome::Inserted => CreateStep::Accept,
        InsertOutcome::AlreadyExists => {
            if attempt + 1 < MAX_ATTEMPTS {
                CreateStep::Retry
            } else {
                CreateStep::GiveUp
            }
        },
        InsertOutcome::StorageError => CreateStep::Fail,
    }
}

/// Orchestrates alias creation and resolution over an injected generator
/// and store. The manager itself holds no other state, and every candidate
/// it draws is checked against the store before it is accepted.
pub struct UrlManager {
    generator: AliasGenerator,
    store: MemStore,
}

impl View for UrlManager {
    type V = Map<Seq<char>, Seq<char>>;

    closed spec fn view(&self) -> Map<Seq<char>, Seq<char>> {
        self.store@
    }
}

impl UrlManager {
    /// The salt of the injected generator.
    pub closed spec fn salt(self) -> u64 {
        self.generator.salt
    }

    /// A well-formed manager wraps a well-formed store.
    pub closed spec fn wf(self) -> bool {
        self.store.wf()
    }

    /// A manager around the given generator and store.
    pub fn new(generator: AliasGenerator, store: MemStore) -> (r: UrlManager)
        requires
            store.wf(),
        ensures
            r.wf(),
            r@ == store@,
            r.salt() == generator.salt,
    {
        UrlManager { generator, store }
    }

    /// Creates a mapping for `long_url` under a fresh alias.
    ///
    /// An empty long URL is rejected as `InvalidInput` and the store is left
    /// untouched. Otherwise candidates are drawn for attempts `0` up to
    /// `MAX_ATTEMPTS`, each inserted if absent; the first free candidate
    /// succeeds, and if every candidate within the budget is taken the call
    /// is a conflict, `AliasAlreadyExists`. This store has no failing
    /// medium, so `OtherError` is never surfaced.
    pub fn create(&mut self, long_url: &str) -> (r: Result<Mapping, UrlError>)
        requires
            old(self).wf(),
        ensures
            final(self).wf(),
            final(self).salt() == old(self).salt(),
            r == Err::<Mapping, UrlError>(UrlError::InvalidInput) <==> long_url@.len() == 0,
            r == Err::<Mapping, UrlError>(UrlError::AliasAlreadyExists) <==> (long_url@.len() > 0
                && all_candidates_taken(old(self)@, old(self).salt(), long_url@)),
            r != Err::<Mapping, UrlError>(UrlError::OtherError),
            r is Err ==> final(self)@ == old(self)@,
            r is Ok <==> (long_url@.len() > 0 && !all_candidates_taken(
                old(self)@,
                old(self).salt(),
                long_url@,
            )),
            r matches Ok(m) ==> {
                &&& m.long_url@ == long_url@
                &&& m.wf()
                &&& m.alias@.len() == ALIAS_LEN
                &&& created(old(self)@, final(self)@, m)
                &&& exists|i: u64|
                    first_free_attempt(old(self)@, old(self).salt(), long_url@, i)
                        && m.alias@ == candidate_seq(old(self).salt(), long_url@, i)
            },
    {
        if long_url.is_empty() {
            return Err(UrlError::InvalidInput);
        }
        let mut attempt: u64 = 0;
        while attempt < MAX_ATTEMPTS
            invariant
                self.wf(),
                self@ == old(self)@,
                self.generator == old(self).generator,
                long_url@.len() > 0,
                attempt <= MAX_ATTEMPTS,
                forall|j: u64|
                    j < attempt ==> old(self)@.contains_key(
                        #[trigger] candidate_seq(old(self).salt(), long_url@, j),
                    ),
            decreases MAX_ATTEMPTS - attempt,
        {
            let alias = self.generator.candidate(long_url, attempt);
            let outcome = self.store.insert_if_absent(alias.as_str(), long_url);
            match next_step(outcome, attempt) {
                CreateStep::Accept => {
                    proof {
                        assert(first_free_attempt(
                            old(self)@,
                            old(self).salt(),
                            long_url@,
                            attempt,
                        ));
                    }
                    let m = Mapping { alias, long_url: long_url.to_owned() };
                    return Ok(m);
                },
                CreateStep::Retry => {
                    attempt = attempt + 1;
                },
                CreateStep::GiveUp => {
                    proof {
                        assert forall|i: u64|
                            i < MAX_ATTEMPTS implies old(self)@.contains_key(
                            #[trigger] candidate_seq(old(self).salt(), long_url@, i),
                        ) by {
                            if i == attempt {
                                assert(old(self)@.contains_key(
                                    candidate_seq(old(self).salt(), long_url@, attempt),
                                ));
                            }
                        }
                    }
                    return Err(UrlError::AliasAlreadyExists);
                },
                CreateStep::Fail => {
                    return Err(UrlError::OtherError);
                },
            }
        }
        Err(UrlError::AliasAlreadyExists)
    }

    /// Resolves an alias to its stored mapping; yields nothing exactly for
    /// aliases never inserted. No side effects.
    pub fn lookup(&self, alias: &str) -> (r: Option<Mapping>)
        requires
            self.wf(),
        ensures
            r is Some <==> self@.contains_key(alias@),
            match r {
                Some(m) => {
                    &&& m.alias@ == alias@
                    &&& m.wf()
                    &&& lookup_spec(self@, alias@) == Some(m.long_url@)
                },
                None => lookup_spec(self@, alias@) is None,
            },
    {
        self.store.get(alias)
    }
}

/// A successful `create` only grows the store, and its alias is stored
/// afterwards.
pub proof fn lemma_create_grows(
    m0: Map<Seq<char>, Seq<char>>,
    m1: Map<Seq<char>, Seq<char>>,
    mp: Mapping,
)
    requires
        created(m0, m1, mp),
    ensures
        m0.submap_of(m1),
        m1.contains_key(mp.alias@),
{
}

/// Uniqueness: successful `create` calls return pairwise distinct aliases.
/// The second create may run on the first's store or on any later store
/// that still holds everything the first stored.
pub proof fn lemma_created_aliases_distinct(
    m0: Map<Seq<char>, Seq<char>>,
    m1: Map<Seq<char>, Seq<char>>,
    mp1: Mapping,
    m2: Map<Seq<char>, Seq<char>>,
    m3: Map<Seq<char>, Seq<char>>,
    mp2: Mapping,
)
    requires
        created(m0, m1, mp1),
        created(m2, m3, mp2),
        m1.submap_of(m2),
    ensures
        mp1.alias@ != mp2.alias@,
{
    assert(m1.contains_key(mp1.alias@));
    assert(m2.contains_key(mp1.alias@));
}

/// Round-trip: after `create` stored a mapping, `lookup` of its alias
/// yields exactly the long URL it was created with.
pub proof fn lemma_create_round_trip(
    m0: Map<Seq<char>, Seq<char>>,
    m1: Map<Seq<char>, Seq<char>>,
    mp: Mapping,
)
    requires
        created(m0, m1, mp),
    ensures
        lookup_spec(m1, mp.alias@) == Some(mp.long_url@),
{
}

/// At most one attempt is the first free one.
pub proof fn lemma_first_free_unique(
    m: Map<Seq<char>, Seq<char>>,
    salt: u64,
    url: Seq<char>,
    i: u64,
    j: u64,
)
    requires
        first_free_attempt(m, salt, url, i),
        first_free_attempt(m, salt, url, j),
    ensures
        i == j,
{
    if i < j {
        assert(m.contains_key(candidate_seq(salt, url, i)));
    } else if j < i {
        assert(m.contains_key(candidate_seq(salt, url, j)));
    }
}

/// Collision retry: on a store where the candidates of the first `n`
/// attempts are taken, attempt `n` is the first free one — so `create`
/// succeeds with its candidate — provided `n` is within the retry budget;
/// and once the budget is met or exceeded, every candidate is taken — so
/// `create` returns the conflict.
pub proof fn lemma_collision_retry(
    m: Map<Seq<char>, Seq<char>>,
    salt: u64,
    url: Seq<char>,
    n: u64,
)
    requires
        forall|j: u64| j < n ==> m.contains_key(#[trigger] candidate_seq(salt, url, j)),
    ensures
        n < MAX_ATTEMPTS && !m.contains_key(candidate_seq(salt, url, n)) ==> first_free_attempt(
            m,
            salt,
            url,
            n,
        ),
        n >= MAX_ATTEMPTS ==> all_candidates_taken(m, salt, url),
{
}

} // verus!
