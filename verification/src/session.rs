use vstd::prelude::*;
use crate::fetchers::FetchError;
use crate::scrape::{attr_found, origin_of, scrape_attr, sel_ok, selector_is_valid, url_origin};

verus! {

// ---------------------------------------------------------------------------
// The session-verification (challenge) protocol, as a state machine.  The
// caller performs the requests and hands each response back as an event;
// every decision is made here.
// ---------------------------------------------------------------------------

/// The states of one `retrieve` call of a session client.
#[derive(Debug, Clone, PartialEq, Eq)]
pub enum ChallengeState {
    /// No verification step is pending.
    Normal,
    /// A challenge marker was found; its resolved action URL is held.
    ChallengeDetected(String),
    /// An image challenge was presented: the image path, and the resolved
    /// URL the solution token must be submitted to.
    ImagePresented { image: String, action: String },
    /// The verification was rejected; the retrieval fails.
    Failed,
}

/// What the outside world reported back.
#[derive(Debug, Clone, PartialEq, Eq)]
pub enum SessionEvent {
    /// The body of the initial response for the target URL.
    Response(String),
    /// The body of the follow-up response for a detected challenge.
    FollowupResponse(String),
    /// The body that came back after a solution token was accepted.
    SolutionAccepted(String),
    /// The solution token was rejected.
    SolutionRejected,
}

/// What the caller must do next.
#[derive(Debug, Clone, PartialEq, Eq)]
pub enum SessionAction {
    /// The document is ready: hand it to the extraction walk.
    Deliver(String),
    /// Request this URL and come back with `FollowupResponse`.
    FetchFollowup(String),
    /// Obtain a solution for the image and submit it to the action URL.
    SubmitSolution { image: String, action: String },
    /// Persist the cookie store, then hand the document to the walk.
    PersistAndDeliver(String),
    /// The retrieval fails with a challenge error.
    Abort,
}

/// Model of a state.
#[verifier::ext_equal]
pub enum StateModel {
    Normal,
    ChallengeDetected(Seq<char>),
    ImagePresented { image: Seq<char>, action: Seq<char> },
    Failed,
}

/// Model of an event.
#[verifier::ext_equal]
pub enum EventModel {
    Response(Seq<char>),
    FollowupResponse(Seq<char>),
    SolutionAccepted(Seq<char>),
    SolutionRejected,
}

/// Model of an action.
#[verifier::ext_equal]
pub enum ActionModel {
    Deliver(Seq<char>),
    FetchFollowup(Seq<char>),
    SubmitSolution { image: Seq<char>, action: Seq<char> },
    PersistAndDeliver(Seq<char>),
    Abort,
}

pub open spec fn state_model(s: ChallengeState) -> StateModel {
    match s {
        ChallengeState::Normal => StateModel::Normal,
        ChallengeState::ChallengeDetected(a) => StateModel::ChallengeDetected(a@),
        ChallengeState::ImagePresented { image, action } => StateModel::ImagePresented {
            image: image@,
            action: action@,
        },
        ChallengeState::Failed => StateModel::Failed,
    }
}

pub open spec fn event_model(e: SessionEvent) -> EventModel {
    match e {
        SessionEvent::Response(b) => EventModel::Response(b@),
        SessionEvent::FollowupResponse(b) => EventModel::FollowupResponse(b@),
        SessionEvent::SolutionAccepted(b) => EventModel::SolutionAccepted(b@),
        SessionEvent::SolutionRejected => EventModel::SolutionRejected,
    }
}

pub open spec fn action_model(a: SessionAction) -> ActionModel {
    match a {
        SessionAction::Deliver(b) => ActionModel::Deliver(b@),
        SessionAction::FetchFollowup(u) => ActionModel::FetchFollowup(u@),
        SessionAction::SubmitSolution { image, action } => ActionModel::SubmitSolution {
            image: image@,
            action: action@,
        },
        SessionAction::PersistAndDeliver(b) => ActionModel::PersistAndDeliver(b@),
        SessionAction::Abort => ActionModel::Abort,
    }
}

/// The attribute of the first element matched by `sel`, when the element and
/// the attribute are both present.
pub open spec fn marker_attr(body: Seq<char>, sel: Seq<char>, attr: Seq<char>) -> Option<
    Seq<char>,
> {
    match attr_found(body, sel, attr) {
        Option::Some(Option::Some(a)) => Option::Some(a),
        _ => Option::None,
    }
}

/// The action URL of the checkbox-challenge form of a response body, if one
/// is present.
pub open spec fn challenge_action_of(body: Seq<char>) -> Option<Seq<char>> {
    marker_attr(body, ".CheckboxCaptcha-Form"@, "action"@)
}

/// The image path of the advanced (image) challenge of a follow-up body.
pub open spec fn challenge_image_of(body: Seq<char>) -> Option<Seq<char>> {
    marker_attr(body, ".AdvancedCaptcha-Image"@, "src"@)
}

/// The action URL of the advanced-challenge form of a follow-up body.
pub open spec fn followup_action_of(body: Seq<char>) -> Option<Seq<char>> {
    marker_attr(body, ".AdvancedCaptcha-Form"@, "action"@)
}

/// Whether the three fixed challenge selectors parse; they are literals, so
/// this holds of the selector engine, not of any input.
pub open spec fn markers_ok() -> bool {
    sel_ok(".CheckboxCaptcha-Form"@) && sel_ok(".AdvancedCaptcha-Image"@) && sel_ok(
        ".AdvancedCaptcha-Form"@,
    )
}

/// One step of the challenge protocol: what the next state is and what the
/// caller must do, given a state and what came back.  A pair that the
/// protocol does not expect fails the retrieval.
pub open spec fn session_transition(s: StateModel, e: EventModel, origin: Seq<char>) -> (
    StateModel,
    ActionModel,
) {
    match (s, e) {
        (StateModel::Normal, EventModel::Response(body)) => {
            match challenge_action_of(body) {
                Option::Some(a) => (
                    StateModel::ChallengeDetected(origin + a),
                    ActionModel::FetchFollowup(origin + a),
                ),
                Option::None => (StateModel::Normal, ActionModel::Deliver(body)),
            }
        },
        (StateModel::ChallengeDetected(_), EventModel::FollowupResponse(body)) => {
            match challenge_image_of(body) {
                Option::Some(img) => {
                    match followup_action_of(body) {
                        Option::Some(a) => (
                            StateModel::ImagePresented { image: img, action: origin + a },
                            ActionModel::SubmitSolution { image: img, action: origin + a },
                        ),
                        Option::None => (StateModel::Failed, ActionModel::Abort),
                    }
                },
                Option::None => (StateModel::Normal, ActionModel::PersistAndDeliver(body)),
            }
        },
        (StateModel::ImagePresented { .. }, EventModel::SolutionAccepted(body)) => (
            StateModel::Normal,
            ActionModel::PersistAndDeliver(body),
        ),
        (StateModel::ImagePresented { .. }, EventModel::SolutionRejected) => (
            StateModel::Failed,
            ActionModel::Abort,
        ),
        _ => (StateModel::Failed, ActionModel::Abort),
    }
}

fn concat_strs(a: &str, b: &str) -> (r: String)
    ensures
        r@ == a@ + b@,
{
    let mut out: Vec<char> = Vec::new();
    crate::strutil::push_str_chars(&mut out, a);
    crate::strutil::push_str_chars(&mut out, b);
    crate::strutil::chars_to_string(&out)
}

fn find_marker(body: &str, sel: &str, attr: &str) -> (r: Result<Option<String>, FetchError>)
    ensures
        r is Err <==> !sel_ok(sel@),
        r is Err ==> r == Result::<Option<String>, FetchError>::Err(FetchError::Challenge),
        r matches Result::Ok(a) ==> crate::scrape::opt_str_view(a) == marker_attr(
            body@,
            sel@,
            attr@,
        ),
{
    if !selector_is_valid(sel) {
        return Result::Err(FetchError::Challenge);
    }
    match scrape_attr(body, sel, attr) {
        Option::Some(Option::Some(a)) => Result::Ok(Option::Some(a)),
        _ => Result::Ok(Option::None),
    }
}

/// Drive the challenge protocol one step.  The fixed challenge selectors are
/// literals; should the selector engine reject one, the step fails the
/// retrieval like any other protocol violation.
pub fn session_step(state: ChallengeState, event: SessionEvent, origin: &str) -> (r: (
    ChallengeState,
    SessionAction,
))
    ensures
        markers_ok() ==> (state_model(r.0), action_model(r.1)) == session_transition(
            state_model(state),
            event_model(event),
            origin@,
        ),
        !markers_ok() ==> r.0 is Failed && r.1 is Abort,
{
    if !(selector_is_valid(".CheckboxCaptcha-Form") && selector_is_valid(".AdvancedCaptcha-Image")
        && selector_is_valid(".AdvancedCaptcha-Form")) {
        return (ChallengeState::Failed, SessionAction::Abort);
    }
    match (state, event) {
        (ChallengeState::Normal, SessionEvent::Response(body)) => {
            match find_marker(body.as_str(), ".CheckboxCaptcha-Form", "action") {
                Result::Err(_) => (ChallengeState::Failed, SessionAction::Abort),
                Result::Ok(Option::Some(a)) => {
                    let url = concat_strs(origin, a.as_str());
                    let url2 = url.clone();
                    (
                        ChallengeState::ChallengeDetected(url),
                        SessionAction::FetchFollowup(url2),
                    )
                },
                Result::Ok(Option::None) => {
                    (ChallengeState::Normal, SessionAction::Deliver(body))
                },
            }
        },
        (ChallengeState::ChallengeDetected(_), SessionEvent::FollowupResponse(body)) => {
            let img = match find_marker(body.as_str(), ".AdvancedCaptcha-Image", "src") {
                Result::Err(_) => {
                    return (ChallengeState::Failed, SessionAction::Abort);
                },
                Result::Ok(v) => v,
            };
            let act = match find_marker(body.as_str(), ".AdvancedCaptcha-Form", "action") {
                Result::Err(_) => {
                    return (ChallengeState::Failed, SessionAction::Abort);
                },
                Result::Ok(v) => v,
            };
            match img {
                Option::Some(image) => {
                    match act {
                        Option::Some(a) => {
                            let url = concat_strs(origin, a.as_str());
                            let url2 = url.clone();
                            let image2 = image.clone();
                            (
                                ChallengeState::ImagePresented { image, action: url },
                                SessionAction::SubmitSolution { image: image2, action: url2 },
                            )
                        },
                        Option::None => (ChallengeState::Failed, SessionAction::Abort),
                    }
                },
                Option::None => {
                    (ChallengeState::Normal, SessionAction::PersistAndDeliver(body))
                },
            }
        },
        (ChallengeState::ImagePresented { .. }, SessionEvent::SolutionAccepted(body)) => {
            (ChallengeState::Normal, SessionAction::PersistAndDeliver(body))
        },
        (ChallengeState::ImagePresented { .. }, SessionEvent::SolutionRejected) => {
            (ChallengeState::Failed, SessionAction::Abort)
        },
        _ => (ChallengeState::Failed, SessionAction::Abort),
    }
}

/// The origin that challenge action paths are resolved against, from the
/// target's URL.  A URL the parser rejects is a spec-validation failure.
pub fn client_origin(url: &str) -> (r: Result<String, FetchError>)
    ensures
        r matches Result::Ok(s) ==> origin_of(url@) == Option::Some(s@),
        r is Err <==> origin_of(url@) is None,
        r is Err ==> r == Result::<String, FetchError>::Err(FetchError::SpecValidation),
{
    match url_origin(url) {
        Option::Some(o) => Result::Ok(o),
        Option::None => Result::Err(FetchError::SpecValidation),
    }
}

// ---------------------------------------------------------------------------
// The Cookie request header.
// ---------------------------------------------------------------------------

pub open spec fn pairs_model(ps: Seq<(String, String)>) -> Seq<(Seq<char>, Seq<char>)>
    decreases ps,
{
    if ps.len() == 0 {
        Seq::empty()
    } else {
        pairs_model(ps.drop_last()).push((ps.last().0@, ps.last().1@))
    }
}

pub broadcast proof fn lemma_pairs_model(ps: Seq<(String, String)>)
    ensures
        (#[trigger] pairs_model(ps)).len() == ps.len(),
        forall|i: int|
            0 <= i < ps.len() ==> pairs_model(ps)[i] == (ps[i].0@, ps[i].1@),
    decreases ps,
{
    if ps.len() > 0 {
        lemma_pairs_model(ps.drop_last());
    }
}

/// The texts `name=value`, one per cookie pair.
pub open spec fn cookie_texts(ps: Seq<(Seq<char>, Seq<char>)>) -> Seq<Seq<char>>
    decreases ps.len(),
{
    if ps.len() == 0 {
        Seq::empty()
    } else {
        seq![ps[0].0 + seq!['='] + ps[0].1] + cookie_texts(ps.drop_first())
    }
}

/// The Cookie header value for a set of pairs: the `name=value` texts joined
/// by `"; "`.
pub open spec fn cookie_header_of(ps: Seq<(Seq<char>, Seq<char>)>) -> Seq<char> {
    crate::serializer::join_with(cookie_texts(ps), seq![';', ' '])
}

fn emit_cookie_pairs(out: &mut Vec<char>, pairs: &Vec<(String, String)>, i: usize)
    requires
        i <= pairs@.len(),
    ensures
        final(out)@ == old(out)@ + crate::serializer::join_with(
            cookie_texts(pairs_model(pairs@).skip(i as int)),
            seq![';', ' '],
        ),
    decreases pairs@.len() - i,
{
    proof {
        lemma_pairs_model(pairs@);
    }
    if i == pairs.len() {
        proof {
            assert(pairs_model(pairs@).skip(i as int) =~= Seq::<(Seq<char>, Seq<char>)>::empty());
        }
        return ;
    }
    let ghost rest = pairs_model(pairs@).skip(i as int);
    proof {
        assert(rest[0] == pairs_model(pairs@)[i as int]);
        assert(rest.drop_first() =~= pairs_model(pairs@).skip(i + 1 as int));
    }
    crate::strutil::push_str_chars(out, pairs[i].0.as_str());
    out.push('=');
    crate::strutil::push_str_chars(out, pairs[i].1.as_str());
    if i + 1 < pairs.len() {
        out.push(';');
        out.push(' ');
        emit_cookie_pairs(out, pairs, i + 1);
    }
    proof {
        let sep = seq![';', ' '];
        if i + 1 == pairs.len() {
            assert(cookie_texts(rest).len() == 1);
            assert(crate::serializer::join_with(cookie_texts(rest), sep) == cookie_texts(
                rest,
            )[0]);
        } else {
            assert(cookie_texts(rest).len() >= 2);
            assert(cookie_texts(rest)[0] == rest[0].0 + seq!['='] + rest[0].1);
            assert(cookie_texts(rest).drop_first() =~= cookie_texts(rest.drop_first()));
            assert(crate::serializer::join_with(cookie_texts(rest), sep) == cookie_texts(
                rest,
            )[0] + sep + crate::serializer::join_with(
                cookie_texts(rest.drop_first()),
                sep,
            ));
        }
        assert(out@ =~= old(out)@ + crate::serializer::join_with(cookie_texts(rest), sep));
    }
}

/// The Cookie request-header value for the given cookies: `None` when there
/// are none, else the `name=value` pairs joined by `"; "`.
pub fn join_cookie_header(pairs: &Vec<(String, String)>) -> (r: Option<String>)
    ensures
        r is None <==> pairs@.len() == 0,
        r matches Option::Some(s) ==> s@ == cookie_header_of(pairs_model(pairs@)),
{
    if pairs.len() == 0 {
        return Option::None;
    }
    let mut out: Vec<char> = Vec::new();
    emit_cookie_pairs(&mut out, pairs, 0);
    proof {
        assert(pairs_model(pairs@).skip(0) =~= pairs_model(pairs@));
    }
    Option::Some(crate::strutil::chars_to_string(&out))
}

}
