use thumbor::engine::{
    EncodeError, OutputFormat, RenderError, TransformError, TransformFault,
};
use thumbor::pb::{Filter, ImageSpec, SampleFilter, Spec};
use thumbor::proxy::{
    fingerprint, look_up, settle, start, step, Action, CoreError, Event, FetchError, Request,
    Shared, State,
};
use thumbor::token::DecodeError;

const TOKEN: &str = "CgoKCAjYBBDYBCADCgQyAggD";

/// The answer with `output` in the format that the tests render in.
fn responds(output: Vec<u8>) -> Action {
    Action::Respond { output, format: OutputFormat::Jpeg }
}

fn pipeline() -> ImageSpec {
    ImageSpec::new(vec![
        Spec::new_resize(600, 600, SampleFilter::CatmullRom),
        Spec::new_filter(Filter::Marine),
    ])
}

#[test]
fn fingerprint_is_fnv1a_of_both_texts() {
    assert_eq!(fingerprint("", ""), 12638352127299873646);
    assert_eq!(fingerprint(TOKEN, "https://example.com/a b.png"), 13376109578627976878);
    assert_ne!(fingerprint("ab", "c"), fingerprint("a", "bc"));
    assert_eq!(fingerprint("x", "y"), fingerprint("x", "y"));
}

#[test]
fn start_decodes_and_computes_the_key() {
    let (state, action) = start(TOKEN, "https%3A%2F%2Fexample.com%2Fa%20b.png");
    assert_eq!(action, Action::LookUp);
    assert_eq!(
        state,
        State::KeyComputed(Request {
            key: 13376109578627976878,
            url: "https://example.com/a b.png".to_string(),
            pipeline: pipeline(),
        })
    );
}

#[test]
fn start_refuses_a_bad_token() {
    let (state, action) = start("CgQyAggE", "https://example.com/a.png");
    assert_eq!(state, State::Failed);
    assert_eq!(action, Action::Fail(CoreError::BadRequest(DecodeError::Malformed)));
}

#[test]
fn shared_needs_room() {
    assert!(Shared::new(0, false, OutputFormat::Jpeg).is_none());
    let shared = Shared::new(2, true, OutputFormat::Webp).unwrap();
    assert_eq!(shared.cache.len(), 0);
    assert_eq!(shared.cache.capacity(), 2);
    assert!(shared.single_flight);
    assert_eq!(shared.format, OutputFormat::Webp);
    assert!(!shared.flights.in_flight(1));
}

/// Runs one request to its end against `shared`; `fetch` and `render` stand
/// for the outside, and `fetches` counts how often the source was asked for.
fn process(
    shared: &mut Shared,
    token: &str,
    url: &str,
    fetch: Result<Vec<u8>, FetchError>,
    render: Result<Vec<u8>, RenderError>,
    fetches: &mut usize,
) -> Result<Vec<u8>, CoreError> {
    let (mut state, mut action) = start(token, url);
    loop {
        let next = match action {
            Action::LookUp => look_up(shared, state),
            Action::Wait => panic!("nothing else is in flight"),
            Action::Fetch(_) => {
                *fetches += 1;
                step(state, Event::Fetched(fetch.clone()))
            }
            Action::Render { .. } => step(state, Event::Rendered(render.clone())),
            Action::Settle => settle(shared, state),
            Action::Respond { output, format } => {
                assert_eq!(format, OutputFormat::Jpeg);
                return Ok(output);
            }
            Action::Fail(e) => return Err(e),
        };
        state = next.0;
        action = next.1;
    }
}

#[test]
fn second_request_is_a_hit_and_fetches_nothing() {
    for single_flight in [false, true] {
        let mut shared = Shared::new(4, single_flight, OutputFormat::Jpeg).unwrap();
        let mut fetches = 0;
        let url = "https://example.com/cat.png";
        let first =
            process(&mut shared, TOKEN, url, Ok(vec![1, 2, 3]), Ok(vec![7, 7, 7]), &mut fetches);
        assert_eq!(first, Ok(vec![7, 7, 7]));
        assert_eq!(fetches, 1);
        assert_eq!(shared.cache.len(), 1);
        let second = process(
            &mut shared,
            TOKEN,
            url,
            Err(FetchError::Unreachable),
            Err(RenderError::Encode(EncodeError::Failed)),
            &mut fetches,
        );
        assert_eq!(second, Ok(vec![7, 7, 7]));
        assert_eq!(fetches, 1);
        assert_eq!(shared.cache.len(), 1);
        assert!(!shared.flights.in_flight(fingerprint(TOKEN, url)));
    }
}

#[test]
fn another_url_or_token_is_another_entry() {
    let mut shared = Shared::new(4, false, OutputFormat::Jpeg).unwrap();
    let mut fetches = 0;
    let a = process(&mut shared, TOKEN, "u1", Ok(vec![1]), Ok(vec![10]), &mut fetches);
    let b = process(&mut shared, TOKEN, "u2", Ok(vec![2]), Ok(vec![20]), &mut fetches);
    let c = process(&mut shared, "", "u1", Ok(vec![1]), Ok(vec![30]), &mut fetches);
    assert_eq!((a, b, c), (Ok(vec![10]), Ok(vec![20]), Ok(vec![30])));
    assert_eq!(fetches, 3);
    assert_eq!(shared.cache.len(), 3);
}

#[test]
fn failed_transform_stores_nothing() {
    for single_flight in [false, true] {
        let mut shared = Shared::new(4, single_flight, OutputFormat::Jpeg).unwrap();
        let mut fetches = 0;
        let fault = TransformError { index: 1, fault: TransformFault::CropOutOfBounds };
        let token = ImageSpec::new(vec![
            Spec::new_resize(10, 10, SampleFilter::Nearest),
            Spec::new_crop(0, 0, 20, 20),
        ])
        .encode();
        let url = "https://example.com/cat.png";
        let r = process(
            &mut shared,
            &token,
            url,
            Ok(vec![1, 2, 3]),
            Err(RenderError::Transform(fault)),
            &mut fetches,
        );
        assert_eq!(r, Err(CoreError::Transform(fault)));
        assert_eq!(shared.cache.len(), 0);
        assert_eq!(shared.cache.get(fingerprint(&token, url)), None);
        assert!(!shared.flights.in_flight(fingerprint(&token, url)));
    }
}

#[test]
fn failed_fetch_and_failed_encoder_store_nothing() {
    let mut shared = Shared::new(4, true, OutputFormat::Jpeg).unwrap();
    let mut fetches = 0;
    let r = process(
        &mut shared,
        TOKEN,
        "u",
        Err(FetchError::Status(404)),
        Ok(vec![1]),
        &mut fetches,
    );
    assert_eq!(r, Err(CoreError::Upstream(FetchError::Status(404))));
    let r = process(
        &mut shared,
        TOKEN,
        "u",
        Ok(vec![1]),
        Err(RenderError::Encode(EncodeError::Failed)),
        &mut fetches,
    );
    assert_eq!(r, Err(CoreError::Encode(EncodeError::Failed)));
    let r = process(&mut shared, "???", "u", Ok(vec![1]), Ok(vec![1]), &mut fetches);
    assert_eq!(r, Err(CoreError::BadRequest(DecodeError::Malformed)));
    assert_eq!(shared.cache.len(), 0);
    assert_eq!(fetches, 2);
    assert!(!shared.flights.in_flight(fingerprint(TOKEN, "u")));
}

#[test]
fn with_claims_the_second_request_waits_for_the_first() {
    let mut shared = Shared::new(4, true, OutputFormat::Jpeg).unwrap();
    let key = fingerprint(TOKEN, "u");
    let (a, _) = start(TOKEN, "u");
    let (b, _) = start(TOKEN, "u");
    let (a, action) = look_up(&mut shared, a);
    assert_eq!(action, Action::Fetch("u".to_string()));
    assert!(shared.flights.in_flight(key));
    let (b, action) = look_up(&mut shared, b);
    assert_eq!(action, Action::Wait);
    assert!(matches!(b, State::KeyComputed(_)));
    let (b, action) = look_up(&mut shared, b);
    assert_eq!(action, Action::Wait);
    // Another key is not held up.
    let (c, _) = start(TOKEN, "other");
    let (_, action) = look_up(&mut shared, c);
    assert_eq!(action, Action::Fetch("other".to_string()));
    let (a, action) = step(a, Event::Fetched(Ok(vec![1])));
    assert_eq!(action, Action::Render {
            pipeline: pipeline(),
            source: vec![1],
            format: OutputFormat::Jpeg
        });
    let (a, action) = step(a, Event::Rendered(Ok(vec![9, 9])));
    assert_eq!(action, Action::Settle);
    assert_eq!(shared.cache.len(), 0);
    assert_eq!(settle(&mut shared, a), (State::Responding, responds(vec![9, 9])));
    assert!(!shared.flights.in_flight(key));
    assert!(shared.flights.in_flight(fingerprint(TOKEN, "other")));
    assert_eq!(look_up(&mut shared, b), (State::Responding, responds(vec![9, 9])));
}

#[test]
fn with_claims_a_failure_lets_the_next_request_go_on() {
    let mut shared = Shared::new(4, true, OutputFormat::Jpeg).unwrap();
    let key = fingerprint(TOKEN, "u");
    let (a, _) = start(TOKEN, "u");
    let (b, _) = start(TOKEN, "u");
    let (a, _) = look_up(&mut shared, a);
    let (b, action) = look_up(&mut shared, b);
    assert_eq!(action, Action::Wait);
    let (a, action) = step(a, Event::Fetched(Err(FetchError::Unreachable)));
    assert_eq!(action, Action::Settle);
    assert_eq!(a, State::Failing { key, error: CoreError::Upstream(FetchError::Unreachable) });
    assert!(shared.flights.in_flight(key));
    assert_eq!(
        settle(&mut shared, a),
        (State::Failed, Action::Fail(CoreError::Upstream(FetchError::Unreachable)))
    );
    assert!(!shared.flights.in_flight(key));
    assert_eq!(shared.cache.len(), 0);
    let (b, action) = look_up(&mut shared, b);
    assert_eq!(action, Action::Fetch("u".to_string()));
    assert_eq!(b, State::Fetching { key, pipeline: pipeline(), format: OutputFormat::Jpeg });
    assert!(shared.flights.in_flight(key));
}

#[test]
fn without_claims_both_work_and_the_last_writer_wins() {
    let mut shared = Shared::new(4, false, OutputFormat::Jpeg).unwrap();
    let key = fingerprint(TOKEN, "u");
    let (a, _) = start(TOKEN, "u");
    let (b, _) = start(TOKEN, "u");
    let (a, action_a) = look_up(&mut shared, a);
    let (b, action_b) = look_up(&mut shared, b);
    assert_eq!(action_a, Action::Fetch("u".to_string()));
    assert_eq!(action_b, Action::Fetch("u".to_string()));
    assert!(!shared.flights.in_flight(key));
    let (a, _) = step(a, Event::Fetched(Ok(vec![1])));
    let (b, _) = step(b, Event::Fetched(Ok(vec![1])));
    let (a, _) = step(a, Event::Rendered(Ok(vec![10])));
    let (b, _) = step(b, Event::Rendered(Ok(vec![20])));
    assert_eq!(settle(&mut shared, a), (State::Responding, responds(vec![10])));
    assert_eq!(settle(&mut shared, b), (State::Responding, responds(vec![20])));
    assert_eq!(shared.cache.len(), 1);
    assert_eq!(shared.cache.get(key), Some(vec![20]));
}

#[test]
fn each_transition_by_itself() {
    let fetching = State::Fetching { key: 5, pipeline: pipeline(), format: OutputFormat::Png };
    assert_eq!(
        step(fetching.clone(), Event::Fetched(Ok(vec![1, 2]))),
        (
            State::Transforming { key: 5 },
            Action::Render {
                pipeline: pipeline(),
                source: vec![1, 2],
                format: OutputFormat::Png
            }
        )
    );
    assert_eq!(
        step(fetching.clone(), Event::Fetched(Err(FetchError::Unreadable))),
        (
            State::Failing { key: 5, error: CoreError::Upstream(FetchError::Unreadable) },
            Action::Settle
        )
    );
    assert_eq!(
        step(State::Transforming { key: 5 }, Event::Rendered(Ok(vec![9]))),
        (State::Storing { key: 5, output: vec![9] }, Action::Settle)
    );
    let fault = TransformError { index: 0, fault: TransformFault::EmptyCrop };
    assert_eq!(
        step(State::Transforming { key: 5 }, Event::Rendered(Err(RenderError::Transform(fault)))),
        (State::Failing { key: 5, error: CoreError::Transform(fault) }, Action::Settle)
    );
    assert_eq!(
        step(
            State::Transforming { key: 5 },
            Event::Rendered(Err(RenderError::Encode(EncodeError::Unsupported)))
        ),
        (
            State::Failing { key: 5, error: CoreError::Encode(EncodeError::Unsupported) },
            Action::Settle
        )
    );
    let mut shared = Shared::new(1, false, OutputFormat::Jpeg).unwrap();
    assert_eq!(
        settle(&mut shared, State::Storing { key: 5, output: vec![9] }),
        (State::Responding, responds(vec![9]))
    );
    assert_eq!(shared.cache.get(5), Some(vec![9]));
    let request = Request { key: 5, url: "u".to_string(), pipeline: pipeline() };
    assert_eq!(
        look_up(&mut shared, State::KeyComputed(request.clone())),
        (State::Responding, responds(vec![9]))
    );
    let other = Request { key: 6, ..request };
    assert_eq!(
        look_up(&mut shared, State::KeyComputed(other)),
        (State::Fetching { key: 6, pipeline: pipeline(), format: OutputFormat::Jpeg }, Action::Fetch("u".to_string()))
    );
}

#[test]
fn an_event_out_of_turn_fails_and_stores_nothing() {
    let failed = (State::Failed, Action::Fail(CoreError::OutOfTurn));
    let failing = (State::Failing { key: 1, error: CoreError::OutOfTurn }, Action::Settle);
    assert_eq!(step(State::Transforming { key: 1 }, Event::Fetched(Ok(vec![1]))), failing);
    assert_eq!(
        step(State::Fetching { key: 1, pipeline: pipeline(), format: OutputFormat::Jpeg }, Event::Rendered(Ok(vec![1]))),
        failing
    );
    assert_eq!(
        step(State::Storing { key: 1, output: vec![2] }, Event::Rendered(Ok(vec![1]))),
        failing
    );
    assert_eq!(step(State::Responding, Event::Rendered(Ok(vec![1]))), failed);
    assert_eq!(step(State::Failed, Event::Fetched(Ok(vec![1]))), failed);
    let request = Request { key: 1, url: "u".to_string(), pipeline: pipeline() };
    assert_eq!(step(State::KeyComputed(request), Event::Fetched(Ok(vec![1]))), failed);

    let mut shared = Shared::new(2, true, OutputFormat::Jpeg).unwrap();
    assert!(shared.flights.claim(1));
    assert_eq!(settle(&mut shared, State::Transforming { key: 1 }), failed);
    assert!(!shared.flights.in_flight(1));
    assert!(shared.flights.claim(1));
    assert_eq!(look_up(&mut shared, State::Storing { key: 1, output: vec![1] }), failed);
    assert!(!shared.flights.in_flight(1));
    assert_eq!(settle(&mut shared, State::Responding), failed);
    assert_eq!(shared.cache.len(), 0);
}
