use calbot::tg::stream::PAGE_LIMIT;
use calbot::tg::to_result;
use calbot::tg::update_stream;
use calbot::tg::Client;
use calbot::tg::ConfigError;
use calbot::tg::GetUpdates;
use calbot::tg::Response;
use calbot::tg::SendMessage;
use calbot::tg::Step;
use calbot::tg::Update;
use calbot::tg::UpdateStream;
use std::cell::RefCell;

fn new_update(id: i64) -> Update {
    Update { update_id: id, message: None }
}

/// Runs the cursor against `get_updates` until it hands out an update or
/// the sequence ends.
fn next<G, E>(stream: &mut UpdateStream, get_updates: &G) -> Option<Result<Update, E>>
where
    G: Fn(GetUpdates) -> Result<Vec<Update>, E>,
{
    loop {
        match stream.poll() {
            Step::Emit(update) => return Some(Ok(update)),
            Step::Fetch(request) => {
                if let Err(e) = stream.deliver(get_updates(request)) {
                    return Some(Err(e));
                }
            }
            Step::Done => return None,
        }
    }
}

#[test]
fn update_stream_offsets_progress() {
    let last_requested_offset = RefCell::new(None);

    let get_updates = |updates_req: GetUpdates| {
        if let Some(cur_offset) = updates_req.offset {
            if let Some(last_offset) = &*last_requested_offset.borrow() {
                assert_eq!(cur_offset, last_offset + 2);
            }
        }
        last_requested_offset.replace(updates_req.offset);
        let update_offset = updates_req.offset.unwrap_or(0);
        Ok::<_, ()>(vec![new_update(update_offset), new_update(update_offset + 1)])
    };

    let mut stream = update_stream(1).unwrap();
    let mut updates = std::iter::from_fn(|| next(&mut stream, &get_updates)).map(Result::unwrap);
    updates.next();
    updates.next();
    updates.next();
    assert!(*&*last_requested_offset.borrow() == Some(2));
    updates.next();
    updates.next();
    assert!(*&*last_requested_offset.borrow() == Some(4));
}

#[test]
/// Tests that `request` formats its request correctly.
fn request_format() {
    const TOKEN: &'static str = "123:abc-xyz";
    const METHOD: &'static str = "fooBar";
    const EXPECTED_URL: &'static str = "https://api.telegram.org/bot123:abc-xyz/fooBar";

    let body: (u32, char) = (1, 'A');

    // Our `send` implementation that will verify what `request`
    // sends.
    let mock_send = |url: String, body_string: Option<String>| {
        assert_eq!(url.as_str(), EXPECTED_URL);
        body_string.map(|s| assert_eq!(s, serde_json::to_string(&body).unwrap()));

        Ok::<String, ()>(serde_json::to_string(&()).unwrap())
    };

    let client = Client::new(String::from(TOKEN), mock_send);
    assert_eq!(client.request_url(METHOD).as_str(), EXPECTED_URL);
    let answer = client.request(METHOD, None).unwrap();
    serde_json::from_str::<()>(&answer).unwrap();
    let answer = client
        .request(METHOD, Some(serde_json::to_string(&body).unwrap()))
        .unwrap();
    serde_json::from_str::<()>(&answer).unwrap();
}

#[test]
/// Tests that `request` correctly returns the result it receives.
fn request_result() {
    let mut fields = serde_json::Map::new();
    fields.insert(String::from("n"), serde_json::Value::from(1u32));
    fields.insert(String::from("b"), serde_json::Value::from(true));
    let expected_result = serde_json::Value::Object(fields);

    let stub_send = |_: String, _: Option<String>| {
        Ok::<String, ()>(serde_json::to_string(&expected_result).unwrap())
    };

    let client = Client::new(String::from(""), stub_send);
    let answer = client.request("", None).unwrap();
    let result: serde_json::Value = serde_json::from_str(&answer).unwrap();

    assert_eq!(result, expected_result);
}

#[test]
fn request_hands_on_what_it_is_given() {
    let seen = RefCell::new(Vec::new());
    let send = |url: String, body: Option<String>| {
        seen.borrow_mut().push((url, body));
        7u8
    };
    let client = Client::new(String::from("tok"), send);
    assert_eq!(client.request("getMe", None), 7u8);
    assert_eq!(client.request("sendMessage", Some(String::from("{}"))), 7u8);
    assert_eq!(
        *seen.borrow(),
        vec![
            (String::from("https://api.telegram.org/bottok/getMe"), None),
            (
                String::from("https://api.telegram.org/bottok/sendMessage"),
                Some(String::from("{}"))
            ),
        ]
    );
}

#[test]
fn calls_name_their_methods() {
    let client = Client::new(String::from("t"), 5u8);
    let me = client.get_me();
    assert_eq!(me.method, "getMe");
    assert_eq!(me.body, None);
    let args = GetUpdates { offset: Some(3), limit: Some(1), timeout: None, allowed_updates: None };
    let updates = client.get_updates(args.clone());
    assert_eq!(updates.method, "getUpdates");
    assert_eq!(updates.body, Some(args));
    let message = SendMessage { chat_id: 9, text: String::from("hi") };
    let send = client.send_message(message.clone());
    assert_eq!(send.method, "sendMessage");
    assert_eq!(send.body, Some(message));
    assert_eq!(Client::new(String::new(), ()).request_url(""), "https://api.telegram.org/bot/");
}

#[test]
fn answers_are_unwrapped() {
    let good = Response { ok: true, result: Some(7), description: None };
    assert_eq!(to_result(good), Ok(7));
    let bad: Response<i32> =
        Response { ok: false, result: None, description: Some(String::from("no")) };
    assert_eq!(to_result(bad), Err(()));
    let odd = Response { ok: false, result: Some(7), description: None };
    assert_eq!(to_result(odd), Err(()));
}

#[test]
fn zero_timeout_is_refused() {
    assert_eq!(update_stream(0).err(), Some(ConfigError::ZeroTimeout));
    assert_eq!(update_stream(u64::MAX).err(), Some(ConfigError::TimeoutTooLong));
    assert_eq!(update_stream(i64::MAX as u64 + 1).err(), Some(ConfigError::TimeoutTooLong));
    assert!(update_stream(i64::MAX as u64).is_ok());
    assert!(update_stream(1).is_ok());
}

#[test]
fn first_request_has_no_offset() {
    let mut stream = update_stream(30).unwrap();
    let expected =
        GetUpdates { offset: None, limit: Some(100), timeout: Some(30), allowed_updates: None };
    assert_eq!(PAGE_LIMIT, 100);
    assert_eq!(stream.poll(), Step::Fetch(expected.clone()));
    assert_eq!(stream.poll(), Step::Fetch(expected));
}

#[test]
fn updates_come_once_and_in_order() {
    let batches = RefCell::new(vec![vec![0, 1], vec![2, 3], vec![], vec![4]]);
    let offsets = RefCell::new(Vec::new());
    let get_updates = |request: GetUpdates| {
        offsets.borrow_mut().push(request.offset);
        let mut left = batches.borrow_mut();
        if left.is_empty() {
            return Err("no more");
        }
        let ids: Vec<i64> = left.remove(0);
        Ok(ids.into_iter().map(new_update).collect())
    };
    let mut stream = update_stream(5).unwrap();
    let mut seen = Vec::new();
    let mut failure = None;
    while let Some(item) = next(&mut stream, &get_updates) {
        match item {
            Ok(update) => seen.push(update.update_id),
            Err(e) => failure = Some(e),
        }
    }
    assert_eq!(seen, vec![0, 1, 2, 3, 4]);
    assert_eq!(failure, Some("no more"));
    assert_eq!(*offsets.borrow(), vec![None, Some(2), Some(4), Some(4), Some(5)]);
}

#[test]
fn empty_batch_changes_nothing() {
    let mut stream = update_stream(5).unwrap();
    assert_eq!(stream.deliver::<()>(Ok(vec![new_update(41)])), Ok(()));
    assert_eq!(stream.poll(), Step::Emit(new_update(41)));
    let before = stream.poll();
    assert_eq!(stream.deliver::<()>(Ok(vec![])), Ok(()));
    let after = stream.poll();
    assert_eq!(before, after);
    match after {
        Step::Fetch(request) => assert_eq!(request.offset, Some(42)),
        other => panic!("{:?}", other),
    }
}

#[test]
fn offset_follows_the_last_update_of_a_batch() {
    let mut stream = update_stream(5).unwrap();
    assert_eq!(stream.deliver::<()>(Ok(vec![new_update(7), new_update(3)])), Ok(()));
    assert_eq!(stream.poll(), Step::Emit(new_update(7)));
    assert_eq!(stream.poll(), Step::Emit(new_update(3)));
    match stream.poll() {
        Step::Fetch(request) => assert_eq!(request.offset, Some(4)),
        other => panic!("{:?}", other),
    }
    assert_eq!(stream.deliver::<()>(Ok(vec![new_update(i64::MAX - 1)])), Ok(()));
    assert_eq!(stream.poll(), Step::Emit(new_update(i64::MAX - 1)));
    match stream.poll() {
        Step::Fetch(request) => assert_eq!(request.offset, Some(i64::MAX)),
        other => panic!("{:?}", other),
    }
}

#[test]
fn failure_ends_the_sequence() {
    let mut stream = update_stream(5).unwrap();
    assert_eq!(stream.deliver::<u8>(Ok(vec![new_update(1)])), Ok(()));
    assert_eq!(stream.poll(), Step::Emit(new_update(1)));
    assert_eq!(stream.deliver(Err(9u8)), Err(9u8));
    assert_eq!(stream.poll(), Step::Done);
    assert_eq!(stream.poll(), Step::Done);
}

#[test]
fn request_waits_until_the_batch_is_handed_out() {
    let mut stream = update_stream(5).unwrap();
    assert_eq!(stream.deliver::<()>(Ok(vec![new_update(1), new_update(2)])), Ok(()));
    assert_eq!(stream.deliver::<()>(Ok(vec![new_update(3)])), Ok(()));
    assert_eq!(stream.poll(), Step::Emit(new_update(1)));
    assert_eq!(stream.poll(), Step::Emit(new_update(2)));
    assert_eq!(stream.poll(), Step::Emit(new_update(3)));
    assert!(matches!(stream.poll(), Step::Fetch(_)));
}
