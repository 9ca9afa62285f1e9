//! Agreement by repeated sampling: a value is accepted once enough independent
//! samples of a noisy oracle are equal to it.

use vstd::prelude::*;
use vstd::laws_eq::obeys_concrete_eq;
use vstd::std_specs::cmp::PartialEqSpec;

verus! {

/// The quorum used when the caller has no reason to choose another.
pub const DEFAULT_QUORUM: usize = 3;

/// The attempt budget used when the caller has no reason to choose another.
pub const DEFAULT_MAX_ATTEMPTS: usize = 21;

/// Why one call of the oracle gave no value.
#[derive(Clone, Copy, Debug, PartialEq, Eq, Structural)]
pub enum OracleError {
    /// The service could not be reached or did not answer.
    Unavailable,
    /// The answer did not fit the expected shape.
    SchemaMismatch,
}

/// No attempt at all gave a usable sample.
#[derive(Clone, Copy, Debug, PartialEq, Eq, Structural)]
pub enum ExtractError {
    OracleExhausted,
}

/// The values among a run of oracle outcomes, in order.
pub open spec fn usable<V>(s: Seq<Result<Option<V>, OracleError>>) -> Seq<V>
    decreases s.len(),
{
    if s.len() == 0 {
        Seq::empty()
    } else {
        let rest = usable(s.drop_last());
        match s.last() {
            Ok(Some(v)) => rest.push(v),
            _ => rest,
        }
    }
}

/// How often `v` occurs in `s`.
pub open spec fn count_of<V>(s: Seq<V>, v: V) -> nat
    decreases s.len(),
{
    if s.len() == 0 {
        0
    } else {
        count_of(s.drop_last(), v) + if s.last() == v {
            1nat
        } else {
            0nat
        }
    }
}

/// Equal samples needed for agreement. A value is held against the quorum only
/// when it recurs, so never fewer than two are needed.
pub open spec fn needed(quorum: nat) -> nat {
    if quorum < 2 {
        2
    } else {
        quorum
    }
}

/// The last outcome of `s` brought its value to the quorum.
pub open spec fn agreed_at<V>(s: Seq<Result<Option<V>, OracleError>>, quorum: nat) -> bool {
    s.len() > 0 && match s.last() {
        Ok(Some(v)) => count_of(usable(s), v) >= needed(quorum),
        _ => false,
    }
}

/// No prefix of `s`, `s` itself included, reached the quorum.
pub open spec fn unsettled<V>(s: Seq<Result<Option<V>, OracleError>>, quorum: nat) -> bool {
    forall|k: int| 0 < k <= s.len() ==> !#[trigger] agreed_at(s.take(k), quorum)
}

/// Where a run of sampling stands.
#[derive(Clone, Debug)]
pub enum Verdict<V> {
    /// Ask the oracle again.
    Pending,
    /// This value reached the quorum.
    Agreed(V),
    /// The attempts ran out with usable samples, none of them agreed on.
    NoQuorum,
    /// The attempts ran out without a single usable sample.
    Exhausted,
}

/// The verdict after the outcomes `s`, when none of its proper prefixes agreed.
pub open spec fn verdict<V>(
    s: Seq<Result<Option<V>, OracleError>>,
    quorum: nat,
    max_attempts: nat,
) -> Verdict<V> {
    if agreed_at(s, quorum) {
        match s.last() {
            Ok(Some(v)) => Verdict::Agreed(v),
            _ => Verdict::Pending,
        }
    } else if s.len() < max_attempts {
        Verdict::Pending
    } else if usable(s).len() == 0 {
        Verdict::Exhausted
    } else {
        Verdict::NoQuorum
    }
}

/// What a finished run of sampling hands its caller.
pub open spec fn verdict_result<V>(v: Verdict<V>) -> Result<Option<V>, ExtractError> {
    match v {
        Verdict::Agreed(x) => Ok(Some(x)),
        Verdict::NoQuorum => Ok(None),
        _ => Err(ExtractError::OracleExhausted),
    }
}

proof fn lemma_count_push<V>(s: Seq<V>, x: V, v: V)
    ensures
        count_of(s.push(x), v) == count_of(s, v) + if x == v {
            1nat
        } else {
            0nat
        },
{
    assert(s.push(x).drop_last() =~= s);
}

proof fn lemma_usable_push<V>(s: Seq<Result<Option<V>, OracleError>>, o: Result<Option<V>, OracleError>)
    ensures
        usable(s.push(o)) == match o {
            Ok(Some(v)) => usable(s).push(v),
            _ => usable(s),
        },
{
    assert(s.push(o).drop_last() =~= s);
}

proof fn lemma_usable_len<V>(s: Seq<Result<Option<V>, OracleError>>)
    ensures
        usable(s).len() <= s.len(),
    decreases s.len(),
{
    if s.len() > 0 {
        lemma_usable_len(s.drop_last());
    }
}

/// The distinct values sampled so far, each with how often it came.
pub struct CandidatePool<V> {
    values: Vec<V>,
    counts: Vec<usize>,
    quorum: usize,
    samples: Ghost<Seq<V>>,
}

impl<V: PartialEq> CandidatePool<V> {
    /// Every usable sample received, in order.
    pub closed spec fn samples(&self) -> Seq<V> {
        self.samples@
    }

    pub closed spec fn quorum(&self) -> nat {
        self.quorum as nat
    }

    pub closed spec fn wf(&self) -> bool {
        &&& self.values.len() == self.counts.len()
        &&& forall|i: int|
            0 <= i < self.values.len() ==> self.counts[i] == count_of(
                self.samples@,
                #[trigger] self.values[i],
            ) && self.counts[i] >= 1
        &&& forall|i: int, j: int|
            0 <= i < j < self.values.len() ==> self.values[i] != self.values[j]
        &&& forall|v: V|
            #[trigger] count_of(self.samples@, v) > 0 ==> exists|i: int|
                0 <= i < self.values.len() && self.values[i] == v
    }

    pub fn new(quorum: usize) -> (r: Self)
        ensures
            r.wf(),
            r.samples() == Seq::<V>::empty(),
            r.quorum() == quorum,
    {
        CandidatePool { values: Vec::new(), counts: Vec::new(), quorum, samples: Ghost(Seq::empty()) }
    }

    pub fn is_empty(&self) -> (r: bool)
        requires
            self.wf(),
        ensures
            r == (self.samples().len() == 0),
    {
        proof {
            let s = self.samples@;
            if s.len() > 0 {
                lemma_count_push(s.drop_last(), s.last(), s.last());
                assert(s.drop_last().push(s.last()) =~= s);
                assert(count_of(s, s.last()) > 0);
            } else if self.values.len() > 0 {
                assert(self.counts[0] == count_of(s, self.values[0]));
            }
        }
        self.values.len() == 0
    }

    /// Adds one usable sample. Hands it back when it brings its value to the quorum.
    pub fn observe(&mut self, v: V) -> (r: Option<V>)
        requires
            old(self).wf(),
            old(self).samples().len() < usize::MAX,
            obeys_concrete_eq::<V>(),
        ensures
            final(self).wf(),
            final(self).samples() == old(self).samples().push(v),
            final(self).quorum() == old(self).quorum(),
            r is Some <==> count_of(final(self).samples(), v) >= needed(old(self).quorum()),
            r matches Some(x) ==> x == v,
    {
        proof {
            reveal(obeys_concrete_eq);
        }
        let ghost old_samples = self.samples@;
        let ghost new_samples = old_samples.push(v);
        let mut j: usize = 0;
        let mut found = false;
        while !found && j < self.values.len()
            invariant
                found ==> j < self.values.len() && self.values[j as int] == v,
                self.wf(),
                self.samples@ == old_samples,
                obeys_concrete_eq::<V>(),
                V::obeys_eq_spec(),
                forall|x: V, y: V| (x.eq_spec(&y) <==> x == y),
                0 <= j <= self.values.len(),
                forall|i: int| 0 <= i < j ==> self.values[i] != v,
            decreases self.values.len() - j + if found { 0int } else { 1int },
        {
            if self.values[j] == v {
                found = true;
            } else {
                j = j + 1;
            }
        }
        proof {
            assert forall|x: V| #[trigger] count_of(new_samples, x) == count_of(old_samples, x) + if v == x {
                1nat
            } else {
                0nat
            } by {
                lemma_count_push(old_samples, v, x);
            }
        }
        if found {
            let c = self.counts[j];
            assert(c <= old_samples.len()) by {
                lemma_count_bound(old_samples, v);
            }
            self.counts.set(j, c + 1);
            self.samples = Ghost(new_samples);
            proof {
                assert forall|x: V| #[trigger] count_of(new_samples, x) > 0 implies exists|i: int|
                    0 <= i < self.values.len() && self.values[i] == x by {
                    if x != v {
                        assert(count_of(old_samples, x) > 0);
                    }
                }
            }
            if c + 1 >= self.quorum && c + 1 >= 2 {
                Some(v)
            } else {
                None
            }
        } else {
            assert(count_of(old_samples, v) == 0);
            self.values.push(v);
            self.counts.push(1);
            self.samples = Ghost(new_samples);
            proof {
                assert forall|x: V| #[trigger] count_of(new_samples, x) > 0 implies exists|i: int|
                    0 <= i < self.values.len() && self.values[i] == x by {
                    if x != v {
                        assert(count_of(old_samples, x) > 0);
                        let i = choose|i: int| 0 <= i < self.values.len() - 1 && old(self).values[i] == x;
                        assert(self.values[i] == x);
                    } else {
                        assert(self.values[self.values.len() - 1] == x);
                    }
                }
            }
            None
        }
    }
}


/// One run of sampling: the outcomes so far, the pool built from them, and
/// the attempt budget.
pub struct Sampler<V> {
    pool: CandidatePool<V>,
    max_attempts: usize,
    attempts: usize,
    outcomes: Ghost<Seq<Result<Option<V>, OracleError>>>,
}

impl<V: PartialEq> Sampler<V> {
    /// Every oracle outcome received, in order.
    pub closed spec fn outcomes(&self) -> Seq<Result<Option<V>, OracleError>> {
        self.outcomes@
    }

    pub closed spec fn quorum(&self) -> nat {
        self.pool.quorum()
    }

    pub closed spec fn max_attempts(&self) -> nat {
        self.max_attempts as nat
    }

    /// Sampling may go on: attempts are left and nothing was agreed on yet.
    pub closed spec fn wf(&self) -> bool {
        &&& self.pool.wf()
        &&& self.pool.samples() == usable(self.outcomes@)
        &&& self.attempts == self.outcomes@.len()
        &&& self.attempts < self.max_attempts
        &&& unsettled(self.outcomes@, self.pool.quorum())
    }

    /// Starts a run; `None` when the budget allows no attempt at all.
    pub fn new(quorum: usize, max_attempts: usize) -> (r: Option<Self>)
        ensures
            r is Some <==> max_attempts > 0,
            r matches Some(x) ==> x.wf() && x.outcomes() == Seq::<Result<Option<V>, OracleError>>::empty()
                && x.quorum() == quorum && x.max_attempts() == max_attempts,
    {
        if max_attempts == 0 {
            None
        } else {
            Some(
                Sampler {
                    pool: CandidatePool::new(quorum),
                    max_attempts,
                    attempts: 0,
                    outcomes: Ghost(Seq::empty()),
                },
            )
        }
    }

    /// Takes the outcome of one more oracle call and says what comes next.
    pub fn step(&mut self, outcome: Result<Option<V>, OracleError>) -> (r: Verdict<V>)
        requires
            old(self).wf(),
            obeys_concrete_eq::<V>(),
        ensures
            final(self).outcomes() == old(self).outcomes().push(outcome),
            final(self).quorum() == old(self).quorum(),
            final(self).max_attempts() == old(self).max_attempts(),
            r == verdict(final(self).outcomes(), old(self).quorum(), old(self).max_attempts()),
            r is Pending ==> final(self).wf(),
    {
        let ghost old_outcomes = self.outcomes@;
        let ghost new_outcomes = old_outcomes.push(outcome);
        proof {
            lemma_usable_push(old_outcomes, outcome);
            lemma_usable_len(old_outcomes);
        }
        self.outcomes = Ghost(new_outcomes);
        self.attempts = self.attempts + 1;
        assert(new_outcomes.take(new_outcomes.len() as int) =~= new_outcomes);
        match outcome {
            Ok(Some(v)) => {
                let agreed = self.pool.observe(v);
                if let Some(a) = agreed {
                    return Verdict::Agreed(a);
                }
            },
            _ => {},
        }
        assert(!agreed_at(new_outcomes, self.pool.quorum()));
        assert forall|k: int| 0 < k <= new_outcomes.len() implies !#[trigger] agreed_at(
            new_outcomes.take(k),
            self.pool.quorum(),
        ) by {
            if k < new_outcomes.len() {
                assert(new_outcomes.take(k) =~= old_outcomes.take(k));
            }
        }
        if self.attempts < self.max_attempts {
            Verdict::Pending
        } else if self.pool.is_empty() {
            Verdict::Exhausted
        } else {
            Verdict::NoQuorum
        }
    }
}

/// Each of the outcomes `s` is one that `oracle` may give for `prompt`.
pub open spec fn drawn_from<V, F: Fn(&str) -> Result<Option<V>, OracleError>>(
    oracle: F,
    prompt: &str,
    s: Seq<Result<Option<V>, OracleError>>,
) -> bool {
    forall|i: int| 0 <= i < s.len() ==> call_ensures(oracle, (prompt,), #[trigger] s[i])
}

/// The run `s` stopped where it had to: at the first agreement, or when the
/// attempts ran out, and its result is `r`.
pub open spec fn settled_as<V>(
    s: Seq<Result<Option<V>, OracleError>>,
    quorum: nat,
    max_attempts: nat,
    r: Result<Option<V>, ExtractError>,
) -> bool {
    &&& unsettled(s.drop_last(), quorum)
    &&& verdict(s, quorum, max_attempts) !is Pending
    &&& r == verdict_result(verdict(s, quorum, max_attempts))
}

/// Asks `oracle` until `quorum` equal samples agree or `max_attempts` calls
/// are spent. Failed calls are skipped and count toward no candidate. Gives
/// the agreed value, `None` when samples came but none reached the quorum,
/// and `OracleExhausted` when no call gave a usable sample.
pub fn extract<V: PartialEq, F: Fn(&str) -> Result<Option<V>, OracleError>>(
    oracle: &F,
    prompt: &str,
    quorum: usize,
    max_attempts: usize,
) -> (r: Result<Option<V>, ExtractError>)
    requires
        obeys_concrete_eq::<V>(),
        forall|p: &str| oracle.requires((p,)),
    ensures
        max_attempts == 0 ==> r == Err::<Option<V>, ExtractError>(ExtractError::OracleExhausted),
        max_attempts > 0 ==> exists|s: Seq<Result<Option<V>, OracleError>>|
            drawn_from(*oracle, prompt, s) && #[trigger] settled_as(
                s,
                quorum as nat,
                max_attempts as nat,
                r,
            ),
{
    let mut sampler = match Sampler::new(quorum, max_attempts) {
        Some(x) => x,
        None => return Err(ExtractError::OracleExhausted),
    };
    loop
        invariant
            sampler.wf(),
            sampler.quorum() == quorum,
            sampler.max_attempts() == max_attempts,
            drawn_from(*oracle, prompt, sampler.outcomes()),
            obeys_concrete_eq::<V>(),
            forall|p: &str| oracle.requires((p,)),
        decreases max_attempts - sampler.outcomes().len(),
    {
        let outcome = oracle(prompt);
        let ghost before = sampler.outcomes();
        let next = sampler.step(outcome);
        proof {
            assert(sampler.outcomes().drop_last() =~= before);
            assert(drawn_from(*oracle, prompt, sampler.outcomes())) by {
                assert forall|i: int| 0 <= i < sampler.outcomes().len() implies call_ensures(
                    *oracle,
                    (prompt,),
                    #[trigger] sampler.outcomes()[i],
                ) by {
                    if i < before.len() {
                        assert(sampler.outcomes()[i] == before[i]);
                    }
                }
            }
        }
        match next {
            Verdict::Pending => {},
            Verdict::Agreed(v) => {
                assert(settled_as(sampler.outcomes(), quorum as nat, max_attempts as nat, Ok(Some(v))));
                return Ok(Some(v));
            },
            Verdict::NoQuorum => {
                assert(settled_as(sampler.outcomes(), quorum as nat, max_attempts as nat, Ok(None)));
                return Ok(None);
            },
            Verdict::Exhausted => {
                assert(settled_as(
                    sampler.outcomes(),
                    quorum as nat,
                    max_attempts as nat,
                    Err(ExtractError::OracleExhausted),
                ));
                return Err(ExtractError::OracleExhausted);
            },
        }
    }
}

proof fn lemma_count_bound<V>(s: Seq<V>, v: V)
    ensures
        count_of(s, v) <= s.len(),
    decreases s.len(),
{
    if s.len() > 0 {
        lemma_count_bound(s.drop_last(), v);
    }
}

} // verus!
