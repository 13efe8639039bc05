use vstd::prelude::*;

use crate::encode::{decomposition_outcome, encode_result, narrowed, EncodedResult};
use crate::error::BridgeError;

verus! {

/// Where a session stands between two events.
pub enum Phase {
    /// Waiting for the engine's next result.
    Ready,
    /// A result was encoded; the host callback is to be run with it.
    AwaitingCallback,
    /// The first failure; nothing more is relayed.
    Failed(BridgeError),
}

/// A session as a mathematical value: its phase, and each (parameters,
/// decomposition) pair handed to the callback, in order.
pub struct SessionView<P> {
    pub phase: Phase,
    pub invoked: Seq<(Seq<P>, Seq<u8>)>,
}

/// The sink side of one enumeration pass. The engine's results come in through
/// `on_result`; the host callback's outcome through `on_callback_returned`;
/// `finish` turns the engine's own outcome into the pass's result.
pub struct Session<P> {
    phase: Phase,
    invoked: Ghost<Seq<(Seq<P>, Seq<u8>)>>,
}

impl<P> View for Session<P> {
    type V = SessionView<P>;

    closed spec fn view(&self) -> SessionView<P> {
        SessionView { phase: self.phase, invoked: self.invoked@ }
    }
}

/// The state after the engine hands in one result.
pub open spec fn after_result<P>(s: SessionView<P>, params: Seq<P>, labels: Seq<usize>) -> SessionView<P> {
    match decomposition_outcome(labels) {
        Ok(bytes) => SessionView { phase: Phase::AwaitingCallback, invoked: s.invoked.push((params, bytes)) },
        Err(e) => SessionView { phase: Phase::Failed(e), invoked: s.invoked },
    }
}

/// The state after the host callback returns, successfully or not.
pub open spec fn after_callback<P>(s: SessionView<P>, ok: bool) -> SessionView<P> {
    if ok {
        SessionView { phase: Phase::Ready, invoked: s.invoked }
    } else {
        SessionView { phase: Phase::Failed(BridgeError::CallbackInvocationFailed), invoked: s.invoked }
    }
}

/// The pass's result: the first failure of the session if there was one,
/// else the engine's own outcome.
pub open spec fn pass_outcome(phase: Phase, engine: Result<(), String>) -> Result<(), BridgeError> {
    match phase {
        Phase::Failed(e) => Err(e),
        _ => match engine {
            Ok(_) => Ok(()),
            Err(message) => Err(BridgeError::EngineFailure { message }),
        },
    }
}

/// A session driven by an engine that emits `results` in order, each result
/// being followed by the callback (with outcome `callbacks_ok[i]`) when it
/// encodes, and that stops handing in results once the sink has failed.
pub open spec fn run_results<P>(
    s: SessionView<P>,
    results: Seq<(Seq<P>, Seq<usize>)>,
    callbacks_ok: Seq<bool>,
) -> SessionView<P>
    decreases results.len(),
{
    if results.len() == 0 || !(s.phase is Ready) {
        s
    } else {
        let s1 = after_result(s, results[0].0, results[0].1);
        let s2 = if s1.phase is AwaitingCallback {
            after_callback(s1, callbacks_ok[0])
        } else {
            s1
        };
        run_results(s2, results.drop_first(), callbacks_ok.drop_first())
    }
}

/// What the callback receives for each of `results`, all of which encode.
pub open spec fn delivered<P>(results: Seq<(Seq<P>, Seq<usize>)>) -> Seq<(Seq<P>, Seq<u8>)> {
    results.map_values(|r: (Seq<P>, Seq<usize>)| (r.0, narrowed(r.1)))
}

impl<P> Session<P> {
    /// A fresh session, ready for the first result.
    pub fn new() -> (r: Session<P>)
        ensures
            r@.phase is Ready,
            r@.invoked == Seq::<(Seq<P>, Seq<u8>)>::empty(),
    {
        Session { phase: Phase::Ready, invoked: Ghost(Seq::empty()) }
    }

    /// Whether the session accepts the next result.
    pub fn is_ready(&self) -> (r: bool)
        ensures
            r == (self@.phase is Ready),
    {
        match self.phase {
            Phase::Ready => true,
            _ => false,
        }
    }

    /// Whether the callback is to be run before anything else.
    pub fn is_awaiting_callback(&self) -> (r: bool)
        ensures
            r == (self@.phase is AwaitingCallback),
    {
        match self.phase {
            Phase::AwaitingCallback => true,
            _ => false,
        }
    }

    /// Takes one result from the engine. On success the encoded buffers are
    /// returned for the callback; on failure the error is both returned (for the
    /// engine to stop on) and kept as the session's first failure.
    pub fn on_result(&mut self, params: Vec<P>, labels: &Vec<usize>) -> (r: Result<EncodedResult<P>, BridgeError>)
        requires
            old(self)@.phase is Ready,
        ensures
            final(self)@ == after_result(old(self)@, params@, labels@),
            match decomposition_outcome(labels@) {
                Ok(bytes) => r is Ok && r->Ok_0.params@ == params@ && r->Ok_0.decomposition@ == bytes,
                Err(e) => r == Err::<EncodedResult<P>, BridgeError>(e),
            },
    {
        let ghost param_view = params@;
        match encode_result(params, labels) {
            Ok(encoded) => {
                self.phase = Phase::AwaitingCallback;
                self.invoked = Ghost(self.invoked@.push((param_view, encoded.decomposition@)));
                Ok(encoded)
            },
            Err(e) => {
                self.phase = Phase::Failed(e.duplicate());
                Err(e)
            },
        }
    }

    /// Records the outcome of the callback run for the last encoded result.
    pub fn on_callback_returned(&mut self, ok: bool) -> (r: Result<(), BridgeError>)
        requires
            old(self)@.phase is AwaitingCallback,
        ensures
            final(self)@ == after_callback(old(self)@, ok),
            ok ==> r is Ok,
            !ok ==> r == Err::<(), BridgeError>(BridgeError::CallbackInvocationFailed),
    {
        if ok {
            self.phase = Phase::Ready;
            Ok(())
        } else {
            self.phase = Phase::Failed(BridgeError::CallbackInvocationFailed);
            Err(BridgeError::CallbackInvocationFailed)
        }
    }

    /// Ends the pass once the engine has returned: the first failure wins.
    pub fn finish(self, engine: Result<(), String>) -> (r: Result<(), BridgeError>)
        ensures
            r == pass_outcome(self@.phase, engine),
    {
        match self.phase {
            Phase::Failed(e) => Err(e),
            _ => match engine {
                Ok(_) => Ok(()),
                Err(message) => Err(BridgeError::EngineFailure { message }),
            },
        }
    }
}

/// When every result encodes and every callback succeeds, the callback sees
/// each result exactly once, in the order the engine emitted them, with its
/// own parameters paired with its own decomposition.
pub proof fn lemma_callbacks_follow_emission_order<P>(
    s: SessionView<P>,
    results: Seq<(Seq<P>, Seq<usize>)>,
    callbacks_ok: Seq<bool>,
)
    requires
        s.phase is Ready,
        forall|i: int| 0 <= i < results.len() ==> (#[trigger] decomposition_outcome(results[i].1)) is Ok,
        callbacks_ok.len() >= results.len(),
        forall|i: int| 0 <= i < results.len() ==> #[trigger] callbacks_ok[i],
    ensures
        run_results(s, results, callbacks_ok).phase is Ready,
        run_results(s, results, callbacks_ok).invoked == s.invoked + delivered(results),
    decreases results.len(),
{
    if results.len() == 0 {
        assert(s.invoked + delivered(results) =~= s.invoked);
    } else {
        let r0 = results[0];
        assert(decomposition_outcome(r0.1) is Ok);
        let s2 = SessionView { phase: Phase::Ready, invoked: s.invoked.push((r0.0, narrowed(r0.1))) };
        assert(callbacks_ok[0]);
        assert(run_results(s, results, callbacks_ok) == run_results(s2, results.drop_first(), callbacks_ok.drop_first()));
        assert forall|i: int| 0 <= i < results.drop_first().len() implies
            (#[trigger] decomposition_outcome(results.drop_first()[i].1)) is Ok by {
            assert(decomposition_outcome(results[i + 1].1) is Ok);
        }
        assert forall|i: int| 0 <= i < results.drop_first().len() implies #[trigger] callbacks_ok.drop_first()[i] by {
            assert(callbacks_ok[i + 1]);
        }
        lemma_callbacks_follow_emission_order(s2, results.drop_first(), callbacks_ok.drop_first());
        assert(s2.invoked + delivered(results.drop_first()) =~= s.invoked + delivered(results));
    }
}

/// When result `k` is the first that fails to encode, the callback has run for
/// the `k` results before it and for nothing after, and the session holds that
/// encoding error, so the engine is handed no further result.
pub proof fn lemma_failure_stops_delivery<P>(
    s: SessionView<P>,
    results: Seq<(Seq<P>, Seq<usize>)>,
    callbacks_ok: Seq<bool>,
    k: int,
)
    requires
        s.phase is Ready,
        0 <= k < results.len(),
        forall|i: int| 0 <= i < k ==> (#[trigger] decomposition_outcome(results[i].1)) is Ok,
        decomposition_outcome(results[k].1) is Err,
        callbacks_ok.len() >= k,
        forall|i: int| 0 <= i < k ==> #[trigger] callbacks_ok[i],
    ensures
        run_results(s, results, callbacks_ok).phase == Phase::Failed(decomposition_outcome(results[k].1)->Err_0),
        run_results(s, results, callbacks_ok).invoked == s.invoked + delivered(results.take(k)),
        run_results(s, results, callbacks_ok).invoked.len() == s.invoked.len() + k,
    decreases k,
{
    let r0 = results[0];
    if k == 0 {
        let s1 = after_result(s, r0.0, r0.1);
        assert(!(s1.phase is Ready) && !(s1.phase is AwaitingCallback));
        assert(run_results(s1, results.drop_first(), callbacks_ok.drop_first()) == s1);
        assert(run_results(s, results, callbacks_ok) == s1);
        assert(s.invoked + delivered(results.take(k)) =~= s.invoked);
    } else {
        assert(decomposition_outcome(r0.1) is Ok);
        let s2 = SessionView { phase: Phase::Ready, invoked: s.invoked.push((r0.0, narrowed(r0.1))) };
        assert(callbacks_ok[0]);
        assert(run_results(s, results, callbacks_ok) == run_results(s2, results.drop_first(), callbacks_ok.drop_first()));
        assert forall|i: int| 0 <= i < k - 1 implies
            (#[trigger] decomposition_outcome(results.drop_first()[i].1)) is Ok by {
            assert(decomposition_outcome(results[i + 1].1) is Ok);
        }
        assert forall|i: int| 0 <= i < k - 1 implies #[trigger] callbacks_ok.drop_first()[i] by {
            assert(callbacks_ok[i + 1]);
        }
        assert(results.drop_first()[k - 1] == results[k]);
        lemma_failure_stops_delivery(s2, results.drop_first(), callbacks_ok.drop_first(), k - 1);
        assert(s2.invoked + delivered(results.drop_first().take(k - 1)) =~= s.invoked + delivered(results.take(k)));
    }
}

} // verus!
