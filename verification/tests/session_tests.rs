use webfetch::notifier::Signal;
use webfetch::session::{
    client_origin, join_cookie_header, session_step, ChallengeState, SessionAction, SessionEvent,
};

const ORIGIN: &str = "https://source.example";

#[test]
fn test_plain_response_is_delivered() {
    let body = "<html><body><p>content</p></body></html>".to_string();
    let (state, action) = session_step(
        ChallengeState::Normal,
        SessionEvent::Response(body.clone()),
        ORIGIN,
    );
    assert_eq!(state, ChallengeState::Normal);
    assert_eq!(action, SessionAction::Deliver(body));
}

#[test]
fn test_challenge_marker_detected() {
    let body = "<html><body><form class=\"CheckboxCaptcha-Form\" action=\"/checkcaptcha\">\
                </form></body></html>"
        .to_string();
    let (state, action) = session_step(
        ChallengeState::Normal,
        SessionEvent::Response(body),
        ORIGIN,
    );
    let url = format!("{}{}", ORIGIN, "/checkcaptcha");
    assert_eq!(state, ChallengeState::ChallengeDetected(url.clone()));
    assert_eq!(action, SessionAction::FetchFollowup(url));
}

#[test]
fn test_followup_with_image_presents_challenge() {
    let body = "<div><img class=\"AdvancedCaptcha-Image\" src=\"/img.png\">\
                <form class=\"AdvancedCaptcha-Form\" action=\"/submit\"></form></div>"
        .to_string();
    let (state, action) = session_step(
        ChallengeState::ChallengeDetected("x".to_string()),
        SessionEvent::FollowupResponse(body),
        ORIGIN,
    );
    let submit = format!("{}{}", ORIGIN, "/submit");
    assert_eq!(
        state,
        ChallengeState::ImagePresented { image: "/img.png".to_string(), action: submit.clone() }
    );
    assert_eq!(
        action,
        SessionAction::SubmitSolution { image: "/img.png".to_string(), action: submit }
    );
}

#[test]
fn test_followup_without_image_is_solved() {
    let body = "<html><body>welcome back</body></html>".to_string();
    let (state, action) = session_step(
        ChallengeState::ChallengeDetected("x".to_string()),
        SessionEvent::FollowupResponse(body.clone()),
        ORIGIN,
    );
    assert_eq!(state, ChallengeState::Normal);
    assert_eq!(action, SessionAction::PersistAndDeliver(body));
}

#[test]
fn test_accepted_solution_returns_to_normal() {
    let body = "<html>solved</html>".to_string();
    let (state, action) = session_step(
        ChallengeState::ImagePresented { image: "i".to_string(), action: "a".to_string() },
        SessionEvent::SolutionAccepted(body.clone()),
        ORIGIN,
    );
    assert_eq!(state, ChallengeState::Normal);
    assert_eq!(action, SessionAction::PersistAndDeliver(body));
}

#[test]
fn test_rejected_solution_fails() {
    let (state, action) = session_step(
        ChallengeState::ImagePresented { image: "i".to_string(), action: "a".to_string() },
        SessionEvent::SolutionRejected,
        ORIGIN,
    );
    assert_eq!(state, ChallengeState::Failed);
    assert_eq!(action, SessionAction::Abort);
}

#[test]
fn test_unexpected_event_fails() {
    let (state, action) = session_step(
        ChallengeState::Failed,
        SessionEvent::Response("x".to_string()),
        ORIGIN,
    );
    assert_eq!(state, ChallengeState::Failed);
    assert_eq!(action, SessionAction::Abort);
}

#[test]
fn test_client_origin() {
    assert_eq!(
        client_origin("https://market.example.com/product/1?q=2"),
        Ok("https://market.example.com".to_string())
    );
    assert!(client_origin("not a url").is_err());
}

#[test]
fn test_join_cookie_header() {
    assert_eq!(join_cookie_header(&vec![]), None);
    assert_eq!(
        join_cookie_header(&vec![
            ("sid".to_string(), "abc".to_string()),
            ("lang".to_string(), "en".to_string()),
        ]),
        Some("sid=abc; lang=en".to_string())
    );
}

#[test]
fn test_signal_render() {
    assert_eq!(
        Signal::Action("solve it".to_string()).render(),
        "Action required: solve it"
    );
    assert_eq!(Signal::Msg("hello".to_string()).render(), "hello");
    assert_eq!(
        Signal::Failure("boom".to_string()).render(),
        "Error occured: boom"
    );
}

#[test]
fn test_followup_with_image_but_no_form_fails() {
    let body = "<div><img class=\"AdvancedCaptcha-Image\" src=\"/img.png\"></div>".to_string();
    let (state, action) = session_step(
        ChallengeState::ChallengeDetected("x".to_string()),
        SessionEvent::FollowupResponse(body),
        ORIGIN,
    );
    assert_eq!(state, ChallengeState::Failed);
    assert_eq!(action, SessionAction::Abort);
}
