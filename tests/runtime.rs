use actix_lambda::runtime::{
    invocation_headers, route, FakeRuntime, Phase, RequestMessage, Route, RuntimeAction,
    RuntimeEvent,
};

fn invocation(id: &str, payload: &str) -> RuntimeEvent {
    RuntimeEvent::Message(RequestMessage::Invocation { id: id.to_string(), payload: payload.to_string() })
}

#[test]
fn route_next_invocation() {
    assert!(matches!(route("GET", "/2018-06-01/runtime/invocation/next"), Route::NextInvocation));
}

#[test]
fn route_response_with_id() {
    match route("POST", "/2018-06-01/runtime/invocation/1234/response") {
        Route::InvocationResponse(id) => assert_eq!(id, "1234"),
        _ => panic!("expected a response route"),
    }
}

#[test]
fn route_wrong_method_is_not_found() {
    assert!(matches!(route("POST", "/2018-06-01/runtime/invocation/next"), Route::NotFound));
    assert!(matches!(route("GET", "/2018-06-01/runtime/invocation/1234/response"), Route::NotFound));
}

#[test]
fn route_bad_ids_are_not_found() {
    assert!(matches!(route("POST", "/2018-06-01/runtime/invocation//response"), Route::NotFound));
    assert!(matches!(route("POST", "/2018-06-01/runtime/invocation/a/b/response"), Route::NotFound));
    assert!(matches!(route("GET", "/"), Route::NotFound));
    assert!(matches!(route("POST", "/response"), Route::NotFound));
}

#[test]
fn runtime_serves_one_invocation_at_a_time() {
    let mut rt = FakeRuntime::new();
    assert!(matches!(rt.step(RuntimeEvent::Poll), RuntimeAction::ReceiveRequest));
    match rt.step(invocation("1234", "{}")) {
        RuntimeAction::Deliver(id, payload) => {
            assert_eq!(id, "1234");
            assert_eq!(payload, "{}");
        }
        _ => panic!("expected a delivery"),
    }
    assert_eq!(rt.phase, Phase::Dispatched);
    assert!(matches!(rt.step(RuntimeEvent::Poll), RuntimeAction::Hold));
    assert!(matches!(rt.step(RuntimeEvent::ResponsePosted("99".to_string())), RuntimeAction::NotFound));
    assert!(matches!(rt.step(RuntimeEvent::ResponsePosted("1234".to_string())), RuntimeAction::ForwardResponse));
    assert_eq!(rt.phase, Phase::WaitingForRequest);
    assert!(matches!(rt.step(RuntimeEvent::ResponsePosted("1234".to_string())), RuntimeAction::NotFound));
    assert!(matches!(rt.step(RuntimeEvent::Poll), RuntimeAction::ReceiveRequest));
    assert!(matches!(rt.step(invocation("2", "[]")), RuntimeAction::Deliver(_, _)));
}

#[test]
fn runtime_parks_after_shutdown() {
    let mut rt = FakeRuntime::new();
    assert!(matches!(rt.step(RuntimeEvent::Poll), RuntimeAction::ReceiveRequest));
    assert!(matches!(rt.step(RuntimeEvent::Message(RequestMessage::Shutdown)), RuntimeAction::Park));
    assert_eq!(rt.phase, Phase::Stopped);
    assert!(matches!(rt.step(RuntimeEvent::Poll), RuntimeAction::Park));
    assert!(matches!(rt.step(invocation("1", "{}")), RuntimeAction::Park));
    assert!(matches!(rt.step(RuntimeEvent::ResponsePosted("1".to_string())), RuntimeAction::Park));
    assert_eq!(rt.phase, Phase::Stopped);
}

#[test]
fn runtime_ignores_messages_out_of_turn() {
    let mut rt = FakeRuntime::new();
    assert!(matches!(rt.step(invocation("1", "{}")), RuntimeAction::Ignore));
    assert_eq!(rt.phase, Phase::WaitingForRequest);
}

#[test]
fn delivery_headers() {
    let h = invocation_headers("1234");
    assert_eq!(
        h,
        vec![
            ("Lambda-Runtime-Aws-Request-Id".to_string(), "1234".to_string()),
            ("Lambda-Runtime-Invoked-Function-Arn".to_string(), "an-arn".to_string()),
            ("Lambda-Runtime-Deadline-Ms".to_string(), "1000".to_string()),
        ]
    );
}
