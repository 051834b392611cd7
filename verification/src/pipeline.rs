use vstd::prelude::*;
use crate::channel::Helper;
use crate::codec::{decode_u32, encode_u32, le_bytes, le_value};
use crate::store::lookup;
use crate::error::Error;
use crate::rng::fresh_correlation_id;

verus! {

/// A value flowing between steps of a pipeline.
#[derive(Clone, Copy, Debug, PartialEq, Eq, Structural)]
pub enum Value {
    Unit,
    Int(i32),
    Pair(i32, i32),
}

/// The type of a value flowing between steps, checked once at
/// pipeline construction: a chain whose adjacent output/input types
/// disagree is rejected with a construction error, never at run
/// time.
#[derive(Clone, Copy, Debug, PartialEq, Eq, Structural)]
pub enum TypeTag {
    Unit,
    Int,
    Pair,
}

pub open spec fn tag_of(v: Value) -> TypeTag {
    match v {
        Value::Unit => TypeTag::Unit,
        Value::Int(_) => TypeTag::Int,
        Value::Pair(_, _) => TypeTag::Pair,
    }
}

/// What a step computes. `Exchange` sends the current number to the
/// next peer under this step's identifier and resolves to the number
/// received under the given peer identifier.
#[derive(Clone, Copy, Debug)]
pub enum StepKind {
    /// Produce a fixed pair, ignoring the unit input.
    Start(i32, i32),
    /// Sum a pair into one number.
    Add,
    /// Pair the input number with a fixed one.
    PairWith(i32),
    /// Send the input number, resolve to the peer's number.
    Exchange(u128),
}

impl StepKind {
    pub open spec fn input_tag_spec(self) -> TypeTag {
        match self {
            StepKind::Start(_, _) => TypeTag::Unit,
            StepKind::Add => TypeTag::Pair,
            StepKind::PairWith(_) => TypeTag::Int,
            StepKind::Exchange(_) => TypeTag::Int,
        }
    }

    pub open spec fn output_tag_spec(self) -> TypeTag {
        match self {
            StepKind::Start(_, _) => TypeTag::Pair,
            StepKind::Add => TypeTag::Int,
            StepKind::PairWith(_) => TypeTag::Pair,
            StepKind::Exchange(_) => TypeTag::Int,
        }
    }

    /// The input type this step declares.
    pub fn input_tag(&self) -> (t: TypeTag)
        ensures
            t == self.input_tag_spec(),
    {
        match self {
            StepKind::Start(_, _) => TypeTag::Unit,
            StepKind::Add => TypeTag::Pair,
            StepKind::PairWith(_) => TypeTag::Int,
            StepKind::Exchange(_) => TypeTag::Int,
        }
    }

    /// The output type this step declares.
    pub fn output_tag(&self) -> (t: TypeTag)
        ensures
            t == self.output_tag_spec(),
    {
        match self {
            StepKind::Start(_, _) => TypeTag::Pair,
            StepKind::Add => TypeTag::Int,
            StepKind::PairWith(_) => TypeTag::Pair,
            StepKind::Exchange(_) => TypeTag::Int,
        }
    }
}

/// A named unit of computation with a process-unique correlation
/// identifier, stable for the step's lifetime and used to tag the
/// cross-party messages it originates.
#[derive(Clone, Copy, Debug)]
pub struct Step {
    pub id: u128,
    pub kind: StepKind,
}

impl Step {
    /// A step with a freshly generated correlation identifier.
    pub fn new(kind: StepKind) -> (s: Step)
        ensures
            s.kind == kind,
    {
        Step { id: fresh_correlation_id(), kind }
    }

    /// A step with a caller-chosen correlation identifier, for
    /// exchanges whose identifiers both parties agreed on.
    pub fn with_id(id: u128, kind: StepKind) -> (s: Step)
        ensures
            s.id == id,
            s.kind == kind,
    {
        Step { id, kind }
    }
}

/// What one local step resolves to on a given input: its typed
/// output, or nothing when the input has the wrong shape or the sum
/// overflows. An exchange step resolves through the transport, so it
/// has no local result.
pub open spec fn step_spec(k: StepKind, v: Value) -> Option<Value> {
    match k {
        StepKind::Start(x, y) => if v is Unit {
            Some(Value::Pair(x, y))
        } else {
            None
        },
        StepKind::Add => match v {
            Value::Pair(a, b) => if i32::MIN <= a + b <= i32::MAX {
                Some(Value::Int((a + b) as i32))
            } else {
                None
            },
            _ => None,
        },
        StepKind::PairWith(c) => match v {
            Value::Int(a) => Some(Value::Pair(a, c)),
            _ => None,
        },
        StepKind::Exchange(_) => None,
    }
}

/// The chain is well typed from input type `t` on: each step's
/// declared input type equals the running output type so far.
pub open spec fn chain_ok(steps: Seq<Step>, t: TypeTag) -> bool
    decreases steps.len(),
{
    steps.len() == 0 || (steps[0].kind.input_tag_spec() == t && chain_ok(
        steps.drop_first(),
        steps[0].kind.output_tag_spec(),
    ))
}

/// The running output type of the chain from input type `t` on.
pub open spec fn chain_out(steps: Seq<Step>, t: TypeTag) -> TypeTag
    decreases steps.len(),
{
    if steps.len() == 0 {
        t
    } else {
        chain_out(steps.drop_first(), steps[0].kind.output_tag_spec())
    }
}

/// No step of the chain exchanges messages: the pipeline's result is
/// a function of its input alone.
pub open spec fn no_exchange(steps: Seq<Step>) -> bool {
    forall|i: int| 0 <= i < steps.len() ==> !((#[trigger] steps[i]).kind is Exchange)
}

/// What a chain of local steps resolves to: the steps' results in
/// order, or nothing as soon as one step fails.
pub open spec fn eval_steps(steps: Seq<Step>, v: Value) -> Option<Value>
    decreases steps.len(),
{
    if steps.len() == 0 {
        Some(v)
    } else {
        match step_spec(steps[0].kind, v) {
            Some(w) => eval_steps(steps.drop_first(), w),
            None => None,
        }
    }
}

/// Index of the first exchange step; the chain's length if there is
/// none. Up to here a run is pure local evaluation.
pub open spec fn first_exchange_idx(steps: Seq<Step>) -> int
    decreases steps.len(),
{
    if steps.len() == 0 {
        0
    } else if steps[0].kind is Exchange {
        0
    } else {
        1 + first_exchange_idx(steps.drop_first())
    }
}

proof fn lemma_first_exchange_props(s: Seq<Step>)
    ensures
        0 <= first_exchange_idx(s) <= s.len(),
        forall|j: int| 0 <= j < first_exchange_idx(s) ==> !((#[trigger] s[j]).kind is Exchange),
        first_exchange_idx(s) < s.len() ==> s[first_exchange_idx(s)].kind is Exchange,
    decreases s.len(),
{
    if s.len() > 0 && !(s[0].kind is Exchange) {
        lemma_first_exchange_props(s.drop_first());
        let f = first_exchange_idx(s);
        assert forall|j: int| 0 <= j < f implies !((#[trigger] s[j]).kind is Exchange) by {
            if j > 0 {
                assert(s.drop_first()[j - 1] == s[j]);
            }
        }
        if f < s.len() {
            assert(s.drop_first()[f - 1] == s[f]);
        }
    }
}

/// How a run with exchanges relates its input, the numbers received
/// from the transport, its output, and the messages it sent: local
/// steps act as `step_spec`; each exchange step sends the current
/// number's 4-byte form under its own identifier and continues with
/// the received number.
pub open spec fn run_rel(
    steps: Seq<Step>,
    v: Value,
    recvs: Seq<u32>,
    out: Value,
    sent: Seq<(u128, Vec<u8>)>,
) -> bool
    decreases steps.len(),
{
    if steps.len() == 0 {
        out == v && recvs.len() == 0 && sent.len() == 0
    } else {
        match steps[0].kind {
            StepKind::Exchange(_) => {
                &&& v is Int
                &&& recvs.len() > 0
                &&& sent.len() > 0
                &&& sent[0].0 == steps[0].id
                &&& sent[0].1@ == le_bytes((v->Int_0 as u32) as nat, 4)
                &&& run_rel(
                    steps.drop_first(),
                    Value::Int(recvs[0] as i32),
                    recvs.drop_first(),
                    out,
                    sent.drop_first(),
                )
            },
            _ => {
                &&& step_spec(steps[0].kind, v) is Some
                &&& run_rel(steps.drop_first(), step_spec(steps[0].kind, v)->Some_0, recvs, out, sent)
            },
        }
    }
}

proof fn lemma_run_rel_push_local(
    s: Seq<Step>,
    v: Value,
    recvs: Seq<u32>,
    out: Value,
    sent: Seq<(u128, Vec<u8>)>,
    st: Step,
    w: Value,
)
    requires
        run_rel(s, v, recvs, out, sent),
        !(st.kind is Exchange),
        step_spec(st.kind, out) == Some(w),
    ensures
        run_rel(s.push(st), v, recvs, w, sent),
    decreases s.len(),
{
    if s.len() == 0 {
        assert(s.push(st)[0] == st);
        assert(s.push(st).drop_first() =~= Seq::<Step>::empty());
        assert(run_rel(Seq::<Step>::empty(), w, recvs, w, sent));
    } else {
        assert(s.push(st)[0] == s[0]);
        assert(s.push(st).drop_first() =~= s.drop_first().push(st));
        match s[0].kind {
            StepKind::Exchange(_) => {
                lemma_run_rel_push_local(
                    s.drop_first(),
                    Value::Int(recvs[0] as i32),
                    recvs.drop_first(),
                    out,
                    sent.drop_first(),
                    st,
                    w,
                );
            },
            _ => {
                lemma_run_rel_push_local(
                    s.drop_first(),
                    step_spec(s[0].kind, v)->Some_0,
                    recvs,
                    out,
                    sent,
                    st,
                    w,
                );
            },
        }
    }
}

proof fn lemma_run_rel_push_exchange(
    s: Seq<Step>,
    v: Value,
    recvs: Seq<u32>,
    out: Value,
    sent: Seq<(u128, Vec<u8>)>,
    st: Step,
    u: u32,
    pay: Vec<u8>,
)
    requires
        run_rel(s, v, recvs, out, sent),
        st.kind is Exchange,
        out is Int,
        pay@ == le_bytes((out->Int_0 as u32) as nat, 4),
    ensures
        run_rel(s.push(st), v, recvs.push(u), Value::Int(u as i32), sent.push((st.id, pay))),
    decreases s.len(),
{
    if s.len() == 0 {
        assert(s.push(st)[0] == st);
        assert(s.push(st).drop_first() =~= Seq::<Step>::empty());
        assert(recvs.push(u)[0] == u);
        assert(sent.push((st.id, pay))[0] == (st.id, pay));
        assert(recvs.push(u).drop_first() =~= Seq::<u32>::empty());
        assert(sent.push((st.id, pay)).drop_first() =~= Seq::<(u128, Vec<u8>)>::empty());
        assert(run_rel(
            Seq::<Step>::empty(),
            Value::Int(u as i32),
            Seq::<u32>::empty(),
            Value::Int(u as i32),
            Seq::<(u128, Vec<u8>)>::empty(),
        ));
    } else {
        assert(s.push(st)[0] == s[0]);
        assert(s.push(st).drop_first() =~= s.drop_first().push(st));
        match s[0].kind {
            StepKind::Exchange(_) => {
                assert(recvs.push(u)[0] == recvs[0]);
                assert(sent.push((st.id, pay))[0] == sent[0]);
                assert(recvs.push(u).drop_first() =~= recvs.drop_first().push(u));
                assert(sent.push((st.id, pay)).drop_first() =~= sent.drop_first().push(
                    (st.id, pay),
                ));
                lemma_run_rel_push_exchange(
                    s.drop_first(),
                    Value::Int(recvs[0] as i32),
                    recvs.drop_first(),
                    out,
                    sent.drop_first(),
                    st,
                    u,
                    pay,
                );
            },
            _ => {
                lemma_run_rel_push_exchange(
                    s.drop_first(),
                    step_spec(s[0].kind, v)->Some_0,
                    recvs,
                    out,
                    sent,
                    st,
                    u,
                    pay,
                );
            },
        }
    }
}

proof fn lemma_eval_steps_push(s: Seq<Step>, st: Step, v: Value)
    ensures
        eval_steps(s.push(st), v) == (match eval_steps(s, v) {
            Some(w) => step_spec(st.kind, w),
            None => None::<Value>,
        }),
    decreases s.len(),
{
    if s.len() == 0 {
        assert(s.push(st)[0] == st);
        assert(s.push(st).drop_first() =~= Seq::<Step>::empty());
        assert(eval_steps(s, v) == Some(v));
        if step_spec(st.kind, v) is Some {
            let w = step_spec(st.kind, v)->Some_0;
            assert(eval_steps(s.push(st).drop_first(), w) == Some(w));
        }
    } else {
        assert(s.push(st)[0] == s[0]);
        assert(s.push(st).drop_first() =~= s.drop_first().push(st));
        if step_spec(s[0].kind, v) is Some {
            lemma_eval_steps_push(s.drop_first(), st, step_spec(s[0].kind, v)->Some_0);
        }
    }
}

proof fn lemma_eval_none_prefix(s: Seq<Step>, v: Value, a: int, b: int)
    requires
        0 <= a <= b <= s.len(),
        eval_steps(s.take(a), v) is None,
    ensures
        eval_steps(s.take(b), v) is None,
    decreases b - a,
{
    if a < b {
        assert(s.take(a + 1) =~= s.take(a).push(s[a]));
        lemma_eval_steps_push(s.take(a), s[a], v);
        lemma_eval_none_prefix(s, v, a + 1, b);
    }
}

/// The already-arrived rendezvous shape: the chain's only exchange is
/// its last step, the local prefix succeeds, the transport accepts
/// sends, and the peer's 4-byte payload is already answerable under
/// the awaited identifier, which differs from the one this step sends
/// under. A run in this shape completes, whichever order producer and
/// consumer moved in.
pub open spec fn final_exchange_ready<H: Helper>(steps: Seq<Step>, input: Value, h: H) -> bool {
    &&& steps.len() > 0
    &&& first_exchange_idx(steps) == steps.len() - 1
    &&& eval_steps(steps.take(steps.len() - 1), input) is Some
    &&& h.can_send()
    &&& (steps[steps.len() - 1].kind matches StepKind::Exchange(peer) && peer != steps[steps.len()
        - 1].id && h.can_receive(peer) && (lookup(h.inbox(), peer) matches Some(p) && p.len()
        == 4))
}

proof fn lemma_chain_push(s: Seq<Step>, t: TypeTag, st: Step)
    requires
        chain_ok(s, t),
        st.kind.input_tag_spec() == chain_out(s, t),
    ensures
        chain_ok(s.push(st), t),
        chain_out(s.push(st), t) == st.kind.output_tag_spec(),
    decreases s.len(),
{
    if s.len() == 0 {
        assert(s.push(st)[0] == st);
        assert(s.push(st).drop_first() =~= Seq::<Step>::empty());
        assert(chain_ok(Seq::<Step>::empty(), st.kind.output_tag_spec()));
        assert(chain_out(Seq::<Step>::empty(), st.kind.output_tag_spec())
            == st.kind.output_tag_spec());
    } else {
        assert(s.push(st)[0] == s[0]);
        assert(s.push(st).drop_first() =~= s.drop_first().push(st));
        lemma_chain_push(s.drop_first(), s[0].kind.output_tag_spec(), st);
    }
}

/// Builds a pipeline one step at a time. Each added step's declared
/// input type must match the running output type of the chain so
/// far; a mismatch is rejected here, at construction, with
/// `Error::Construction`.
pub struct PipelineBuilder {
    steps: Vec<Step>,
    head: TypeTag,
    cur: TypeTag,
}

impl PipelineBuilder {
    pub closed spec fn steps_spec(&self) -> Seq<Step> {
        self.steps@
    }

    pub closed spec fn head_spec(&self) -> TypeTag {
        self.head
    }

    pub closed spec fn cur_spec(&self) -> TypeTag {
        self.cur
    }

    pub open spec fn wf(&self) -> bool {
        chain_ok(self.steps_spec(), self.head_spec()) && chain_out(
            self.steps_spec(),
            self.head_spec(),
        ) == self.cur_spec()
    }

    /// An empty chain whose external input has the given type.
    pub fn new(input: TypeTag) -> (b: PipelineBuilder)
        ensures
            b.wf(),
            b.steps_spec() == Seq::<Step>::empty(),
            b.head_spec() == input,
            b.cur_spec() == input,
    {
        PipelineBuilder { steps: Vec::new(), head: input, cur: input }
    }

    /// Append a step. Succeeds exactly when the step's declared
    /// input type matches the running output type of the chain.
    pub fn add_step(self, step: Step) -> (r: Result<PipelineBuilder, Error>)
        requires
            self.wf(),
        ensures
            r is Ok <==> step.kind.input_tag_spec() == self.cur_spec(),
            r is Ok ==> (r->Ok_0.wf() && r->Ok_0.steps_spec() == self.steps_spec().push(step)
                && r->Ok_0.head_spec() == self.head_spec() && r->Ok_0.cur_spec()
                == step.kind.output_tag_spec()),
            r is Err ==> r->Err_0 == Error::Construction,
    {
        if step.kind.input_tag() == self.cur {
            proof {
                lemma_chain_push(self.steps@, self.head, step);
            }
            let out_tag = step.kind.output_tag();
            let mut steps = self.steps;
            steps.push(step);
            Ok(PipelineBuilder { steps, head: self.head, cur: out_tag })
        } else {
            Err(Error::Construction)
        }
    }

    /// Seal the chain into an executable pipeline.
    pub fn build(self) -> (p: Pipeline)
        requires
            self.wf(),
        ensures
            p.wf(),
            p@ == self.steps_spec(),
            p.head_spec() == self.head_spec(),
            p.out_spec() == self.cur_spec(),
    {
        Pipeline { steps: self.steps, head: self.head }
    }
}

/// The life cycle of one pipeline run: strictly from not started
/// through running to completed or failed, and the terminal states
/// are final. The synchronous core passes through the running state
/// internally and hands back the terminal one.
#[derive(Clone, Copy, Debug, PartialEq, Eq, Structural)]
pub enum PipelineState {
    NotStarted,
    Running,
    Completed(Value),
    Failed(Error),
}

/// An ordered, statically-typed composition of steps, immutable
/// after construction. Execution is strictly sequential: no step
/// begins before its predecessor's output is available, a failing
/// step aborts the rest of the chain, and the first error surfaces
/// to the caller.
pub struct Pipeline {
    steps: Vec<Step>,
    head: TypeTag,
}

impl Pipeline {
    pub closed spec fn view(&self) -> Seq<Step> {
        self.steps@
    }

    pub closed spec fn head_spec(&self) -> TypeTag {
        self.head
    }

    pub open spec fn wf(&self) -> bool {
        chain_ok(self@, self.head_spec())
    }

    pub open spec fn out_spec(&self) -> TypeTag {
        chain_out(self@, self.head_spec())
    }

    /// Run the chain on `input`, exchanging messages through
    /// `helper` where a step asks for it. For a chain without
    /// exchanges the result is the chain's local evaluation exactly.
    /// With exchanges: a successful run sends exactly the exchange
    /// messages — each step's identifier with the 4-byte form of the
    /// number it held — and the output follows `run_rel` from the
    /// received numbers; the steps before the first exchange fail
    /// locally if and only if the run returns the conversion error
    /// with nothing sent; a transport send failure surfaces as
    /// `Error::Send`, and a receive or payload-decode failure as
    /// `Error::Receive`, never a panic.
    pub fn run<H: Helper>(&self, input: Value, helper: &mut H) -> (r: Result<Value, Error>)
        requires
            self.wf(),
            tag_of(input) == self.head_spec(),
            old(helper).wf(),
        ensures
            final(helper).wf(),
            r is Ok ==> tag_of(r->Ok_0) == self.out_spec(),
            no_exchange(self@) ==> (r is Ok <==> eval_steps(self@, input) is Some),
            no_exchange(self@) ==> (r is Ok ==> r->Ok_0 == eval_steps(self@, input)->Some_0),
            no_exchange(self@) ==> (r is Err ==> r->Err_0 == Error::TypeConversion),
            r is Ok ==> exists|recvs: Seq<u32>|
                #[trigger] run_rel(
                    self@,
                    input,
                    recvs,
                    r->Ok_0,
                    final(helper).outbox().skip(old(helper).outbox().len() as int),
                ),
            final(helper).outbox().take(old(helper).outbox().len() as int) == old(
                helper,
            ).outbox(),
            eval_steps(self@.take(first_exchange_idx(self@)), input) is None <==> (r is Err
                && r->Err_0 == Error::TypeConversion && final(helper).outbox() == old(
                helper,
            ).outbox()),
            r is Err ==> (r->Err_0 == Error::TypeConversion || r->Err_0 == Error::Send
                || r->Err_0 == Error::Receive),
            r is Err && (r->Err_0 == Error::Send || r->Err_0 == Error::Receive) ==> !no_exchange(
                self@,
            ),
            final_exchange_ready(self@, input, *old(helper)) ==> (r is Ok && r->Ok_0 is Int
                && r->Ok_0->Int_0 as u32 as nat == le_value(
                lookup(
                    old(helper).inbox(),
                    self@[self@.len() - 1].kind->Exchange_0,
                )->Some_0,
            )),
    {
        let ghost init_out = old(helper).outbox();
        let ghost fex = first_exchange_idx(self@);
        let ghost scenario = final_exchange_ready(self@, input, *old(helper));
        let ghost mut sent: Seq<(u128, Vec<u8>)> = Seq::empty();
        let ghost mut recvs: Seq<u32> = Seq::empty();
        let mut cur = input;
        let mut i: usize = 0;
        proof {
            lemma_first_exchange_props(self@);
            assert(self@.skip(0) =~= self@);
            assert(self@.take(0) =~= Seq::<Step>::empty());
            assert(init_out + sent =~= init_out);
            assert(run_rel(Seq::<Step>::empty(), input, recvs, cur, sent));
        }
        while i < self.steps.len()
            invariant
                i <= self@.len(),
                self.wf(),
                helper.wf(),
                fex == first_exchange_idx(self@),
                0 <= fex <= self@.len(),
                forall|j: int| 0 <= j < fex ==> !((#[trigger] self@[j]).kind is Exchange),
                fex < self@.len() ==> self@[fex].kind is Exchange,
                chain_ok(self@.skip(i as int), tag_of(cur)),
                chain_out(self@.skip(i as int), tag_of(cur)) == self.out_spec(),
                no_exchange(self@) ==> eval_steps(self@, input) == eval_steps(
                    self@.skip(i as int),
                    cur,
                ),
                init_out == old(helper).outbox(),
                scenario == final_exchange_ready(self@, input, *old(helper)),
                helper.can_send() == old(helper).can_send(),
                i <= fex ==> (forall|k: u128|
                    (#[trigger] helper.can_receive(k)) <==> old(helper).can_receive(k)),
                i <= fex ==> (forall|k: u128|
                    (#[trigger] lookup(helper.inbox(), k)) == lookup(old(helper).inbox(), k)),
                scenario && i > fex ==> (cur is Int && cur->Int_0 as u32 as nat == le_value(
                    lookup(old(helper).inbox(), self@[fex].kind->Exchange_0)->Some_0,
                )),
                helper.outbox() == init_out + sent,
                run_rel(self@.take(i as int), input, recvs, cur, sent),
                i <= fex ==> sent.len() == 0 && recvs.len() == 0 && eval_steps(
                    self@.take(i as int),
                    input,
                ) == Some(cur),
                i > fex ==> sent.len() > 0,
                i > fex ==> eval_steps(self@.take(fex), input) is Some,
            decreases self@.len() - i,
        {
            let step = self.steps[i];
            proof {
                assert(self@.skip(i as int)[0] == self@[i as int]);
                assert(self@.skip(i as int).drop_first() =~= self@.skip(i + 1));
                assert(self@.take(i + 1) =~= self@.take(i as int).push(self@[i as int]));
            }
            match step.kind {
                StepKind::Start(x, y) => {
                    let next = Value::Pair(x, y);
                    proof {
                        lemma_run_rel_push_local(
                            self@.take(i as int),
                            input,
                            recvs,
                            cur,
                            sent,
                            step,
                            next,
                        );
                        if i < fex {
                            lemma_eval_steps_push(self@.take(i as int), step, input);
                        }
                    }
                    cur = next;
                },
                StepKind::Add => {
                    let (a, b) = match cur {
                        Value::Pair(a, b) => (a, b),
                        _ => {
                            proof {
                                assert(helper.outbox().take(init_out.len() as int)
                                    =~= init_out);
                            }
                            return Err(Error::Internal);
                        },
                    };
                    match a.checked_add(b) {
                        Some(s) => {
                            let next = Value::Int(s);
                            proof {
                                lemma_run_rel_push_local(
                                    self@.take(i as int),
                                    input,
                                    recvs,
                                    cur,
                                    sent,
                                    step,
                                    next,
                                );
                                if i < fex {
                                    lemma_eval_steps_push(self@.take(i as int), step, input);
                                }
                            }
                            cur = next;
                        },
                        None => {
                            proof {
                                if i < fex {
                                    lemma_eval_steps_push(self@.take(i as int), step, input);
                                    lemma_eval_none_prefix(self@, input, i + 1, fex);
                                    assert(init_out + sent =~= init_out);
                                } else {
                                    assert(helper.outbox().len() > init_out.len());
                                }
                                assert(helper.outbox().take(init_out.len() as int)
                                    =~= init_out);
                                if scenario {
                                    assert(fex == self@.len() - 1);
                                    assert(i < fex);
                                    assert(false);
                                }
                            }
                            return Err(Error::TypeConversion);
                        },
                    }
                },
                StepKind::PairWith(c) => {
                    let a = match cur {
                        Value::Int(a) => a,
                        _ => {
                            proof {
                                assert(helper.outbox().take(init_out.len() as int)
                                    =~= init_out);
                            }
                            return Err(Error::Internal);
                        },
                    };
                    let next = Value::Pair(a, c);
                    proof {
                        lemma_run_rel_push_local(
                            self@.take(i as int),
                            input,
                            recvs,
                            cur,
                            sent,
                            step,
                            next,
                        );
                        if i < fex {
                            lemma_eval_steps_push(self@.take(i as int), step, input);
                        }
                    }
                    cur = next;
                },
                StepKind::Exchange(peer) => {
                    let a = match cur {
                        Value::Int(a) => a,
                        _ => {
                            proof {
                                assert(helper.outbox().take(init_out.len() as int)
                                    =~= init_out);
                            }
                            return Err(Error::Internal);
                        },
                    };
                    proof {
                        assert(i >= fex);
                    }
                    let payload = encode_u32(a as u32);
                    let ghost pay = payload;
                    match helper.send_to_next(step.id, payload) {
                        Err(e) => {
                            proof {
                                assert(helper.outbox().take(init_out.len() as int)
                                    =~= init_out);
                                if scenario {
                                    assert(false);
                                }
                            }
                            return Err(e);
                        },
                        Ok(_) => {},
                    }
                    proof {
                        assert(helper.outbox() =~= init_out + sent.push((step.id, pay)));
                    }
                    match helper.receive_from(peer) {
                        Err(e) => {
                            proof {
                                assert(helper.outbox().take(init_out.len() as int)
                                    =~= init_out);
                                assert(helper.outbox().len() > init_out.len());
                                if scenario {
                                    assert(i == fex);
                                    assert(self@[fex as int].kind->Exchange_0 == peer);
                                    assert(false);
                                }
                            }
                            return Err(e);
                        },
                        Ok(bytes) => {
                            match decode_u32(&bytes) {
                                Err(e) => {
                                    proof {
                                        assert(helper.outbox().take(init_out.len() as int)
                                            =~= init_out);
                                        assert(helper.outbox().len() > init_out.len());
                                        if scenario {
                                            assert(i == fex);
                                            assert(self@[fex as int].kind->Exchange_0 == peer);
                                            assert(bytes@.len() == 4);
                                            assert(false);
                                        }
                                    }
                                    return Err(e);
                                },
                                Ok(u) => {
                                    proof {
                                        if scenario {
                                            assert(i == fex);
                                            assert(self@[fex as int].kind->Exchange_0 == peer);
                                            assert(u as nat == le_value(
                                                lookup(
                                                    old(helper).inbox(),
                                                    self@[fex as int].kind->Exchange_0,
                                                )->Some_0,
                                            ));
                                            assert((u as i32) as u32 == u) by (bit_vector);
                                        }
                                        lemma_run_rel_push_exchange(
                                            self@.take(i as int),
                                            input,
                                            recvs,
                                            cur,
                                            sent,
                                            step,
                                            u,
                                            pay,
                                        );
                                        sent = sent.push((step.id, pay));
                                        recvs = recvs.push(u);
                                    }
                                    cur = Value::Int(u as i32);
                                },
                            }
                        },
                    }
                },
            }
            i = i + 1;
        }
        proof {
            assert(self@.skip(self@.len() as int) =~= Seq::<Step>::empty());
            assert(self@.take(self@.len() as int) =~= self@);
            assert((init_out + sent).skip(init_out.len() as int) =~= sent);
            assert(run_rel(
                self@,
                input,
                recvs,
                cur,
                helper.outbox().skip(init_out.len() as int),
            ));
            assert(helper.outbox().take(init_out.len() as int) =~= init_out);
            if sent.len() > 0 {
                assert(helper.outbox().len() > init_out.len());
            } else {
                assert(init_out + sent =~= init_out);
            }
        }
        Ok(cur)
    }

    /// Run the chain to a terminal state: completed with the output,
    /// or failed with the first error, which aborted the remaining
    /// steps.
    pub fn execute<H: Helper>(&self, input: Value, helper: &mut H) -> (s: PipelineState)
        requires
            self.wf(),
            tag_of(input) == self.head_spec(),
            old(helper).wf(),
        ensures
            final(helper).wf(),
            s is Completed || s is Failed,
            s is Completed ==> tag_of(s->Completed_0) == self.out_spec(),
            no_exchange(self@) ==> (s is Completed <==> eval_steps(self@, input) is Some),
            no_exchange(self@) ==> (s is Completed ==> s->Completed_0 == eval_steps(
                self@,
                input,
            )->Some_0),
            s is Completed ==> exists|recvs: Seq<u32>|
                #[trigger] run_rel(
                    self@,
                    input,
                    recvs,
                    s->Completed_0,
                    final(helper).outbox().skip(old(helper).outbox().len() as int),
                ),
            final(helper).outbox().take(old(helper).outbox().len() as int) == old(
                helper,
            ).outbox(),
            eval_steps(self@.take(first_exchange_idx(self@)), input) is None <==> (s is Failed
                && s->Failed_0 == Error::TypeConversion && final(helper).outbox() == old(
                helper,
            ).outbox()),
            s is Failed ==> (s->Failed_0 == Error::TypeConversion || s->Failed_0 == Error::Send
                || s->Failed_0 == Error::Receive),
            s is Failed && (s->Failed_0 == Error::Send || s->Failed_0 == Error::Receive)
                ==> !no_exchange(self@),
            final_exchange_ready(self@, input, *old(helper)) ==> (s is Completed
                && s->Completed_0 is Int && s->Completed_0->Int_0 as u32 as nat == le_value(
                lookup(
                    old(helper).inbox(),
                    self@[self@.len() - 1].kind->Exchange_0,
                )->Some_0,
            )),
    {
        let ghost init_out = old(helper).outbox();
        match self.run(input, helper) {
            Ok(v) => {
                proof {
                    let recvs = choose|recvs: Seq<u32>|
                        run_rel(
                            self@,
                            input,
                            recvs,
                            v,
                            helper.outbox().skip(init_out.len() as int),
                        );
                    assert(run_rel(
                        self@,
                        input,
                        recvs,
                        v,
                        helper.outbox().skip(init_out.len() as int),
                    ));
                }
                PipelineState::Completed(v)
            },
            Err(e) => PipelineState::Failed(e),
        }
    }
}

} // verus!
