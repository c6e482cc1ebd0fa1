use aparte::mods::mam::{Event, MamMod, Query, Report, Request};

fn field(name: &str, value: &str) -> (String, String) {
    (name.to_string(), value.to_string())
}

fn fin(id: &str, complete: bool, first: Option<&str>) -> Event {
    Event::Iq {
        id: id.to_string(),
        report: Report::Fin { complete, first: first.map(|f| f.to_string()) },
    }
}

fn is_uuid(id: &str) -> bool {
    let bytes = id.as_bytes();
    bytes.len() == 36
        && bytes.iter().enumerate().all(|(i, b)| match i {
            8 | 13 | 18 | 23 => *b == b'-',
            _ => b.is_ascii_hexdigit(),
        })
}

#[test]
fn a_request_carries_the_filter_of_its_query() {
    let query = Query {
        jid: "me@example.org".to_string(),
        with: Some("you@example.org".to_string()),
        from: Some("2020-01-02T03:04:05+00:00".to_string()),
        count: 7,
    };
    let request = query.request("q".to_string(), "i".to_string(), "b".to_string());
    assert_eq!(
        request,
        Request {
            queryid: "q".to_string(),
            id: "i".to_string(),
            to: "me@example.org".to_string(),
            fields: vec![
                field("end", "2020-01-02T03:04:05+00:00"),
                field("with", "you@example.org")
            ],
            max: 7,
            before: "b".to_string(),
        }
    );
    let query = Query { jid: "room@example.org".to_string(), with: None, from: None, count: 1 };
    let request = query.request("q".to_string(), "i".to_string(), String::new());
    assert_eq!(request.fields, vec![]);
    let query = Query {
        jid: "room@example.org".to_string(),
        with: None,
        from: Some("t".to_string()),
        count: 1,
    };
    assert_eq!(query.request(String::new(), String::new(), String::new()).fields, vec![field("end", "t")]);
}

#[test]
fn every_request_has_fresh_marks() {
    let query = Query { jid: "room@example.org".to_string(), with: None, from: None, count: 3 };
    let first = query.start();
    let second = query.cont("last".to_string());
    assert_eq!(first.before, "");
    assert_eq!(second.before, "last");
    assert_eq!(first.max, 3);
    for id in [&first.queryid, &first.id, &second.queryid, &second.id] {
        assert!(is_uuid(id), "{:?}", id);
    }
    assert_ne!(first.queryid, first.id);
    assert_ne!(first.queryid, second.queryid);
    assert_ne!(first.id, second.id);
}

#[test]
fn joining_a_channel_asks_for_its_newest_page() {
    let mut mam = MamMod::new();
    let request = mam.on_event(Event::Join { channel: "room@example.org".to_string() }).unwrap();
    assert_eq!(request.to, "room@example.org");
    assert_eq!(request.fields, vec![]);
    assert_eq!(request.max, 100);
    assert_eq!(request.before, "");
}

#[test]
fn opening_a_conversation_asks_the_own_archive_for_it() {
    let mut mam = MamMod::new();
    let request = mam
        .on_event(Event::Chat {
            account: "me@example.org".to_string(),
            contact: "you@example.org".to_string(),
        })
        .unwrap();
    assert_eq!(request.to, "me@example.org");
    assert_eq!(request.fields, vec![field("with", "you@example.org")]);
    assert_eq!(request.max, 100);
}

#[test]
fn more_history_is_asked_for_from_a_time_backwards() {
    let mut mam = MamMod::new();
    let request = mam
        .on_event(Event::LoadChannelHistory {
            jid: "room@example.org".to_string(),
            from: Some("2020-01-02T03:04:05+00:00".to_string()),
        })
        .unwrap();
    assert_eq!(request.to, "room@example.org");
    assert_eq!(request.fields, vec![field("end", "2020-01-02T03:04:05+00:00")]);
    let request = mam
        .on_event(Event::LoadChatHistory {
            account: "me@example.org".to_string(),
            contact: "you@example.org".to_string(),
            from: None,
        })
        .unwrap();
    assert_eq!(request.to, "me@example.org");
    assert_eq!(request.fields, vec![field("with", "you@example.org")]);
    assert_eq!(request.max, 100);
}

#[test]
fn a_result_counts_down_what_is_still_asked_for() {
    let mut mam = MamMod::new();
    let request = mam.query(Query {
        jid: "room@example.org".to_string(),
        with: None,
        from: None,
        count: 2,
    });
    assert!(!mam.handle_result("unknown"));
    assert!(!mam.handle_result(&request.id));
    assert!(mam.handle_result(&request.queryid));
    let next = mam.on_event(fin(&request.id, false, Some("first"))).unwrap();
    assert_eq!(next.max, 1);
    assert_eq!(next.before, "first");
    assert_eq!(next.to, "room@example.org");
    assert!(!mam.handle_result(&request.queryid));
    assert!(mam.handle_result(&next.queryid));
    assert!(mam.handle_result(&next.queryid));
    assert!(mam.handle_result(&next.queryid));
    let last = mam.on_event(fin(&next.id, false, Some("older"))).unwrap();
    assert_eq!(last.max, 0);
}

#[test]
fn a_report_ends_its_page() {
    let mut mam = MamMod::new();
    let request = mam.on_event(Event::Join { channel: "room@example.org".to_string() }).unwrap();
    assert!(mam.awaits(&request.id));
    assert!(!mam.awaits(&request.queryid));
    assert!(!mam.awaits("unknown"));
    assert_eq!(mam.on_event(fin("unknown", false, Some("x"))), None);
    assert_eq!(mam.on_event(fin(&request.queryid, false, Some("x"))), None);
    assert!(mam.handle_result(&request.queryid));
    assert_eq!(mam.on_event(fin(&request.id, true, Some("x"))), None);
    assert!(!mam.handle_result(&request.queryid));
    assert_eq!(mam.on_event(fin(&request.id, false, Some("x"))), None);
}

#[test]
fn a_report_without_a_first_result_or_of_another_kind_ends_the_query() {
    let mut mam = MamMod::new();
    let request = mam.on_event(Event::Join { channel: "room@example.org".to_string() }).unwrap();
    assert_eq!(mam.on_event(fin(&request.id, false, None)), None);
    assert!(!mam.handle_result(&request.queryid));
    let request = mam.on_event(Event::Join { channel: "room@example.org".to_string() }).unwrap();
    let other = Event::Iq { id: request.id.clone(), report: Report::Other };
    assert_eq!(mam.on_event(other), None);
    assert!(!mam.handle_result(&request.queryid));
}

#[test]
fn handle_fin_goes_on_only_where_more_is_left() {
    let query = || Query { jid: "a@b".to_string(), with: None, from: None, count: 5 };
    let mut mam = MamMod::new();
    let complete = Report::Fin { complete: true, first: Some("x".to_string()) };
    assert_eq!(mam.handle_fin(query(), complete), None);
    assert_eq!(mam.handle_fin(query(), Report::Other), None);
    assert_eq!(mam.handle_fin(query(), Report::Fin { complete: false, first: None }), None);
    let more = Report::Fin { complete: false, first: Some("x".to_string()) };
    let request = mam.handle_fin(query(), more).unwrap();
    assert_eq!(request.before, "x");
    assert_eq!(request.max, 5);
    assert!(mam.handle_result(&request.queryid));
}

#[test]
fn the_module_names_its_extension() {
    assert_eq!(MamMod::new().description(), "XEP-0313: Message Archive Management");
}
