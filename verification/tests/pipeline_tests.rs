use ipa_core::channel::{Helper, LoopbackHelper};
use ipa_core::codec::encode_u32;
use ipa_core::error::Error;
use ipa_core::pipeline::{Pipeline, PipelineBuilder, PipelineState, Step, StepKind, TypeTag, Value};

fn four_step_pipeline() -> Pipeline {
    PipelineBuilder::new(TypeTag::Unit)
        .add_step(Step::new(StepKind::Start(1, 2)))
        .unwrap()
        .add_step(Step::new(StepKind::Add))
        .unwrap()
        .add_step(Step::new(StepKind::PairWith(3)))
        .unwrap()
        .add_step(Step::new(StepKind::Add))
        .unwrap()
        .build()
}

#[test]
fn four_step_pipeline_computes_six() {
    let pipe = four_step_pipeline();
    let mut helper = LoopbackHelper::new();
    let out = pipe.run(Value::Unit, &mut helper).unwrap();
    assert_eq!(out, Value::Int(6));
}

#[test]
fn mismatched_chain_is_rejected_at_construction() {
    // Start produces a pair; a second Start wants the unit type.
    let builder = PipelineBuilder::new(TypeTag::Unit)
        .add_step(Step::new(StepKind::Start(1, 2)))
        .unwrap();
    let err = builder.add_step(Step::new(StepKind::Start(3, 4)));
    assert!(matches!(err, Err(Error::Construction)));
}

#[test]
fn overflowing_add_fails_the_run() {
    let pipe = PipelineBuilder::new(TypeTag::Unit)
        .add_step(Step::new(StepKind::Start(i32::MAX, 1)))
        .unwrap()
        .add_step(Step::new(StepKind::Add))
        .unwrap()
        .build();
    let mut helper = LoopbackHelper::new();
    assert_eq!(pipe.run(Value::Unit, &mut helper), Err(Error::TypeConversion));
}

#[test]
fn exchange_through_own_rendezvous_round_trips() {
    // Sending and receiving under the same identifier: the loopback
    // transport rendezvouses the step with its own message.
    let id: u128 = 7777;
    let pipe = PipelineBuilder::new(TypeTag::Unit)
        .add_step(Step::new(StepKind::Start(1, 2)))
        .unwrap()
        .add_step(Step::new(StepKind::Add))
        .unwrap()
        .add_step(Step::with_id(id, StepKind::Exchange(id)))
        .unwrap()
        .build();
    let mut helper = LoopbackHelper::new();
    let out = pipe.run(Value::Unit, &mut helper).unwrap();
    assert_eq!(out, Value::Int(3));
}

#[test]
fn exchange_with_no_message_fails() {
    let pipe = PipelineBuilder::new(TypeTag::Int)
        .add_step(Step::with_id(1, StepKind::Exchange(2)))
        .unwrap()
        .build();
    let mut helper = LoopbackHelper::new();
    assert_eq!(pipe.run(Value::Int(5), &mut helper), Err(Error::Receive));
}

#[test]
fn two_pipelines_exchange_one_message_each_way() {
    // Party A's exchange step sends under id_a and waits for id_b;
    // party B's does the opposite. The consumer may attach after the
    // producer has already sent: B's message is delivered to A before
    // A starts, and A's message reaches B only after A has finished.
    let id_a: u128 = 1001;
    let id_b: u128 = 2002;

    let pipe_a = PipelineBuilder::new(TypeTag::Unit)
        .add_step(Step::new(StepKind::Start(1, 2)))
        .unwrap()
        .add_step(Step::new(StepKind::Add))
        .unwrap()
        .add_step(Step::with_id(id_a, StepKind::Exchange(id_b)))
        .unwrap()
        .build();
    let pipe_b = PipelineBuilder::new(TypeTag::Unit)
        .add_step(Step::new(StepKind::Start(10, 20)))
        .unwrap()
        .add_step(Step::new(StepKind::Add))
        .unwrap()
        .add_step(Step::with_id(id_b, StepKind::Exchange(id_a)))
        .unwrap()
        .build();

    let mut helper_a = LoopbackHelper::new();
    let mut helper_b = LoopbackHelper::new();

    // B's payload arrives at A before A begins to wait for it.
    helper_a.deliver(id_b, encode_u32(30));
    let out_a = pipe_a.run(Value::Unit, &mut helper_a).unwrap();
    assert_eq!(out_a, Value::Int(30));

    // A's sent message is forwarded to B after the fact; B's consumer
    // attaches late and still completes.
    let sent = helper_a.sent_messages();
    let (sent_id, payload) = sent.last().unwrap().clone();
    assert_eq!(sent_id, id_a);
    helper_b.deliver(sent_id, payload);
    let out_b = pipe_b.run(Value::Unit, &mut helper_b).unwrap();
    assert_eq!(out_b, Value::Int(3));
}

#[test]
fn execute_reaches_a_terminal_state() {
    let pipe = four_step_pipeline();
    let mut helper = LoopbackHelper::new();
    assert_eq!(
        pipe.execute(Value::Unit, &mut helper),
        PipelineState::Completed(Value::Int(6))
    );
    let overflowing = PipelineBuilder::new(TypeTag::Unit)
        .add_step(Step::new(StepKind::Start(i32::MAX, 1)))
        .unwrap()
        .add_step(Step::new(StepKind::Add))
        .unwrap()
        .build();
    assert_eq!(
        overflowing.execute(Value::Unit, &mut helper),
        PipelineState::Failed(Error::TypeConversion)
    );
}

#[test]
fn loopback_send_is_logged_and_delivered() {
    let mut h = LoopbackHelper::new();
    assert!(h.send_to_next(5, vec![1, 2]).is_ok());
    assert_eq!(h.sent_messages().len(), 1);
    assert_eq!(h.receive_from(5).unwrap(), vec![1, 2]);
    assert!(h.receive_from(5).is_err());
}
