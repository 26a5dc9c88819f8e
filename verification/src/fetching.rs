//! The steps by which a request is answered: from what was kept of an earlier answer, or anew.
use vstd::prelude::*;

verus! {

/// A request for what is at an address, and the second until which it may be kept.
#[derive(Debug)]
pub struct FetchRequest {
    pub url: String,
    pub expires_at: Option<i64>,
}

/// The answer to a request.
#[derive(Debug)]
pub struct FetchResult<T> {
    pub url: String,
    pub result: Result<T, String>,
}

impl FetchRequest {
    /// The answer to this request.
    pub fn answered<T>(self, result: Result<T, String>) -> (r: FetchResult<T>)
        ensures
            r == (FetchResult { url: self.url, result }),
    {
        FetchResult { url: self.url, result }
    }
}

/// What is to be done next for an answer.
#[derive(Debug)]
pub enum FetchStep<T> {
    /// Look for what was kept of an earlier one.
    Load,
    /// Fetch it anew.
    Fetch,
    /// Keep it for later.
    Keep(T),
    /// Give it.
    Answer(Result<T, String>),
}

/// What a request meets: why nothing can be fetched at all, if so; what was kept of an earlier
/// answer; and what comes where it is fetched.
pub ghost struct Given<T, E> {
    pub fault: Option<String>,
    pub loaded: Result<Option<T>, E>,
    pub fetched: Result<T, String>,
}

/// The first step for a request: where nothing can be fetched, the answer says so.
pub open spec fn start<T>(fault: Option<String>) -> FetchStep<T> {
    match fault {
        Some(words) => FetchStep::Answer(Err(words)),
        None => FetchStep::Load,
    }
}

/// The step after looking for what was kept: what is there is the answer. Where nothing is
/// there, or it cannot be read, the answer is fetched.
pub open spec fn load_end<T, E>(loaded: Result<Option<T>, E>) -> FetchStep<T> {
    match loaded {
        Ok(Some(answer)) => FetchStep::Answer(Ok(answer)),
        Ok(None) => FetchStep::Fetch,
        Err(_) => FetchStep::Fetch,
    }
}

/// The step after fetching: only what came is kept.
pub open spec fn fetch_end<T>(fetched: Result<T, String>) -> FetchStep<T> {
    match fetched {
        Ok(answer) => FetchStep::Keep(answer),
        Err(error) => FetchStep::Answer(Err(error)),
    }
}

/// The first step for a request.
pub fn first_step<T>(fault: Option<String>) -> (r: FetchStep<T>)
    ensures
        r == start::<T>(fault),
{
    match fault {
        Some(words) => FetchStep::Answer(Err(words)),
        None => FetchStep::Load,
    }
}

/// The step after looking for what was kept.
pub fn after_load<T, E>(loaded: Result<Option<T>, E>) -> (r: FetchStep<T>)
    ensures
        r == load_end(loaded),
{
    match loaded {
        Ok(Some(answer)) => FetchStep::Answer(Ok(answer)),
        Ok(None) => FetchStep::Fetch,
        Err(_) => FetchStep::Fetch,
    }
}

/// The step after fetching.
pub fn after_fetch<T>(fetched: Result<T, String>) -> (r: FetchStep<T>)
    ensures
        r == fetch_end(fetched),
{
    match fetched {
        Ok(answer) => FetchStep::Keep(answer),
        Err(error) => FetchStep::Answer(Err(error)),
    }
}

/// The step after keeping an answer: it is given, whether or not it could be kept.
pub fn after_keep<T>(kept: T) -> (r: FetchStep<T>)
    ensures
        r == FetchStep::Answer(Ok(kept)),
{
    FetchStep::Answer(Ok(kept))
}

/// The most steps that may follow a step.
pub open spec fn steps_left<T>(step: FetchStep<T>) -> nat {
    match step {
        FetchStep::Load => 3,
        FetchStep::Fetch => 2,
        FetchStep::Keep(_) => 1,
        FetchStep::Answer(_) => 0,
    }
}

/// The steps that are taken from one on, up to the answer.
pub open spec fn steps_from<T, E>(step: FetchStep<T>, given: Given<T, E>) -> Seq<FetchStep<T>>
    decreases steps_left(step),
{
    match step {
        FetchStep::Load => seq![step] + steps_from(load_end(given.loaded), given),
        FetchStep::Fetch => seq![step] + steps_from(fetch_end(given.fetched), given),
        FetchStep::Keep(kept) => seq![step] + steps_from(FetchStep::Answer(Ok(kept)), given),
        FetchStep::Answer(_) => seq![step],
    }
}

/// The answer is fetched anew.
pub open spec fn is_fetched<T, E>(given: Given<T, E>) -> bool {
    given.fault is None && !(given.loaded matches Ok(Some(_)))
}

/// The answer to a request.
pub open spec fn answer_to<T, E>(given: Given<T, E>) -> Result<T, String> {
    match (given.fault, given.loaded) {
        (Some(words), _) => Err(words),
        (None, Ok(Some(answer))) => Ok(answer),
        (None, _) => given.fetched,
    }
}

/// Every request ends in exactly one answer: why nothing can be fetched, what was kept, or what
/// fetching brought, be it an error. It is fetched once where nothing was kept, and otherwise
/// not at all; and kept once where it came by fetching, and otherwise not at all.
pub proof fn law_every_request_is_answered_once<T, E>(given: Given<T, E>)
    ensures
        ({
            let steps = steps_from(start::<T>(given.fault), given);
            &&& steps.len() > 0
            &&& forall|i: int|
                0 <= i < steps.len() ==> ((#[trigger] steps[i]) is Answer <==> i == steps.len() - 1)
            &&& steps.last() == FetchStep::Answer(answer_to(given))
            &&& steps.contains(FetchStep::Fetch) <==> is_fetched(given)
            &&& forall|kept: T|
                #[trigger] steps.contains(FetchStep::Keep(kept)) <==> is_fetched(given)
                    && given.fetched == Ok::<T, String>(kept)
            &&& forall|i: int, k: int|
                0 <= i < k < steps.len() ==> steps_left(#[trigger] steps[i]) > steps_left(
                    #[trigger] steps[k],
                )
        }),
{
    let steps = steps_from(start::<T>(given.fault), given);
    reveal_with_fuel(steps_from, 5);
    match (given.fault, given.loaded, given.fetched) {
        (Some(words), _, _) => {
            assert(steps =~= seq![FetchStep::Answer(Err(words))]);
        },
        (None, Ok(Some(answer)), _) => {
            assert(steps =~= seq![FetchStep::Load, FetchStep::Answer(Ok(answer))]);
        },
        (None, _, Err(error)) => {
            assert(steps =~= seq![
                FetchStep::Load,
                FetchStep::Fetch,
                FetchStep::Answer(Err(error)),
            ]);
            assert(steps[1] == FetchStep::<T>::Fetch);
        },
        (None, _, Ok(answer)) => {
            assert(steps =~= seq![
                FetchStep::Load,
                FetchStep::Fetch,
                FetchStep::Keep(answer),
                FetchStep::Answer(Ok(answer)),
            ]);
            assert(steps[1] == FetchStep::<T>::Fetch);
            assert(steps[2] == FetchStep::Keep(answer));
        },
    }
}

} // verus!
