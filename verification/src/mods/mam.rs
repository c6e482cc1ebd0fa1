//! Paging through a message archive: which queries are under way, and what
//! is asked of the archive next.
//!
//! The archive answers a query with a run of results and a closing report.
//! Where the report says that more is left, the query goes on from the
//! first result it got, so that the pages come newest first.

use uuid::Uuid;
use vstd::hash_map::StringHashMap;
use vstd::prelude::*;

verus! {

/// The number of messages that a query asks for at first.
pub const PAGE: usize = 100;

/// What is asked of an archive.
#[derive(Debug, PartialEq, Eq)]
pub struct Query {
    /// The address of the archive.
    pub jid: String,
    /// Whose conversation with the archive's owner is asked for.
    pub with: Option<String>,
    /// The time that the messages asked for were sent before.
    pub from: Option<String>,
    /// The number of messages still asked for.
    pub count: usize,
}

/// What is asked of an archive, as a mathematical value.
pub struct QueryView {
    pub jid: Seq<char>,
    pub with: Option<Seq<char>>,
    pub from: Option<Seq<char>>,
    pub count: nat,
}

/// A text that may be absent, as a mathematical value.
pub open spec fn text_view(text: Option<String>) -> Option<Seq<char>> {
    match text {
        Some(t) => Some(t@),
        None => None,
    }
}

impl View for Query {
    type V = QueryView;

    open spec fn view(&self) -> QueryView {
        QueryView {
            jid: self.jid@,
            with: text_view(self.with),
            from: text_view(self.from),
            count: self.count as nat,
        }
    }
}

/// One request to an archive.
#[derive(Debug, PartialEq, Eq)]
pub struct Request {
    /// The mark that the archive puts on each result of this request.
    pub queryid: String,
    /// The mark that the archive puts on its closing report.
    pub id: String,
    /// The address of the archive.
    pub to: String,
    /// The filter: names and values of the fields of the form.
    pub fields: Vec<(String, String)>,
    /// The number of results asked for at most.
    pub max: usize,
    /// The result that the page asked for ends before; empty for the
    /// newest page.
    pub before: String,
}

/// One request to an archive, as a mathematical value.
pub struct RequestView {
    pub queryid: Seq<char>,
    pub id: Seq<char>,
    pub to: Seq<char>,
    pub fields: Seq<(Seq<char>, Seq<char>)>,
    pub max: nat,
    pub before: Seq<char>,
}

/// The fields `fields`, as mathematical values.
pub open spec fn fields_view(fields: Seq<(String, String)>) -> Seq<(Seq<char>, Seq<char>)> {
    Seq::new(fields.len(), |i: int| (fields[i].0@, fields[i].1@))
}

impl View for Request {
    type V = RequestView;

    open spec fn view(&self) -> RequestView {
        RequestView {
            queryid: self.queryid@,
            id: self.id@,
            to: self.to@,
            fields: fields_view(self.fields@),
            max: self.max as nat,
            before: self.before@,
        }
    }
}

/// The filter of the query `query`: the field `end` where the query has a
/// time, then the field `with` where it names a conversation.
pub open spec fn filter(query: QueryView) -> Seq<(Seq<char>, Seq<char>)> {
    let end = match query.from {
        Some(time) => seq![("end"@, time)],
        None => Seq::empty(),
    };
    let with = match query.with {
        Some(who) => seq![("with"@, who)],
        None => Seq::empty(),
    };
    end + with
}

/// The request that asks for the page of `query` that ends before
/// `before`, under the marks `queryid` and `id`.
pub open spec fn request_for(
    query: QueryView,
    queryid: Seq<char>,
    id: Seq<char>,
    before: Seq<char>,
) -> RequestView {
    RequestView { queryid, id, to: query.jid, fields: filter(query), max: query.count, before }
}

/// A copy of the text `text`, if there is one.
fn duplicate_text(text: &Option<String>) -> (r: Option<String>)
    ensures
        r == *text,
{
    match text {
        Some(t) => Some(t.clone()),
        None => None,
    }
}

/// A mark that no other request bears.
///
/// Trusted: `Uuid::new_v4` of the crate `uuid`, which draws a random
/// identifier, written out with `Uuid::hyphenated`. Nothing is claimed of
/// the text that comes back.
#[verifier::external_body]
fn new_id() -> String {
    Uuid::new_v4().hyphenated().to_string()
}

impl Query {
    /// A copy of this query.
    pub fn duplicate(&self) -> (r: Query)
        ensures
            r == *self,
    {
        Query {
            jid: self.jid.clone(),
            with: duplicate_text(&self.with),
            from: duplicate_text(&self.from),
            count: self.count,
        }
    }

    /// The request that asks for the page of this query that ends before
    /// `before`, under the marks `queryid` and `id`.
    pub fn request(&self, queryid: String, id: String, before: String) -> (r: Request)
        ensures
            r@ == request_for(self@, queryid@, id@, before@),
    {
        let mut fields: Vec<(String, String)> = Vec::new();
        if let Some(end) = &self.from {
            fields.push(("end".to_owned(), end.clone()));
        }
        if let Some(with) = &self.with {
            fields.push(("with".to_owned(), with.clone()));
        }
        assert(fields_view(fields@) =~= filter(self@));
        Request { queryid, id, to: self.jid.clone(), fields, max: self.count, before }
    }

    /// The request for the newest page of this query, under fresh marks.
    pub fn start(&self) -> (r: Request)
        ensures
            r@ == request_for(self@, r.queryid@, r.id@, Seq::empty()),
    {
        let before = String::new();
        self.request(new_id(), new_id(), before)
    }

    /// The request for the page of this query that ends before `before`,
    /// under fresh marks.
    pub fn cont(&self, before: String) -> (r: Request)
        ensures
            r@ == request_for(self@, r.queryid@, r.id@, before@),
    {
        self.request(new_id(), new_id(), before)
    }
}

/// What the closing report of a request says.
#[derive(Debug, PartialEq, Eq)]
pub enum Report {
    /// The page is through: whether the archive has no more, and the first
    /// result of the page, if it had any.
    Fin { complete: bool, first: Option<String> },
    /// Anything else.
    Other,
}

/// What the closing report of a request says, as a mathematical value.
pub enum ReportView {
    Fin { complete: bool, first: Option<Seq<char>> },
    Other,
}

impl View for Report {
    type V = ReportView;

    open spec fn view(&self) -> ReportView {
        match self {
            Report::Fin { complete, first } => ReportView::Fin {
                complete: *complete,
                first: text_view(*first),
            },
            Report::Other => ReportView::Other,
        }
    }
}

/// What happens that the archive is asked on.
#[derive(Debug, PartialEq, Eq)]
pub enum Event {
    /// A channel was joined.
    Join { channel: String },
    /// A conversation of `account` with `contact` was opened.
    Chat { account: String, contact: String },
    /// More of the history of a channel is wanted, from before `from`.
    LoadChannelHistory { jid: String, from: Option<String> },
    /// More of the history of a conversation is wanted, from before
    /// `from`.
    LoadChatHistory { account: String, contact: String, from: Option<String> },
    /// The report marked `id` came in.
    Iq { id: String, report: Report },
}

/// What happens, as a mathematical value.
pub enum EventView {
    Join { channel: Seq<char> },
    Chat { account: Seq<char>, contact: Seq<char> },
    LoadChannelHistory { jid: Seq<char>, from: Option<Seq<char>> },
    LoadChatHistory { account: Seq<char>, contact: Seq<char>, from: Option<Seq<char>> },
    Iq { id: Seq<char>, report: ReportView },
}

impl View for Event {
    type V = EventView;

    open spec fn view(&self) -> EventView {
        match self {
            Event::Join { channel } => EventView::Join { channel: channel@ },
            Event::Chat { account, contact } => EventView::Chat {
                account: account@,
                contact: contact@,
            },
            Event::LoadChannelHistory { jid, from } => EventView::LoadChannelHistory {
                jid: jid@,
                from: text_view(*from),
            },
            Event::LoadChatHistory { account, contact, from } => EventView::LoadChatHistory {
                account: account@,
                contact: contact@,
                from: text_view(*from),
            },
            Event::Iq { id, report } => EventView::Iq { id: id@, report: report@ },
        }
    }
}

/// The queries under way: each under the mark of its last request, and
/// for each request the mark of its report.
pub struct Archive {
    /// The queries, by the mark on their results.
    pub queries: Map<Seq<char>, QueryView>,
    /// The mark on the results, by the mark on the report.
    pub iq2id: Map<Seq<char>, Seq<char>>,
}

impl Archive {
    /// The query that the report marked `id` closes a page of, if one is
    /// under way.
    pub open spec fn closed_by(self, id: Seq<char>) -> Option<QueryView> {
        if self.iq2id.contains_key(id) && self.queries.contains_key(self.iq2id[id]) {
            Some(self.queries[self.iq2id[id]])
        } else {
            None
        }
    }

    /// The state once `event` has been taken note of, before anything new
    /// is asked: a report takes its mark off the list, and the query that
    /// it closes a page of with it.
    pub open spec fn settled(self, event: EventView) -> Archive {
        match event {
            EventView::Iq { id, .. } => if self.iq2id.contains_key(id) {
                Archive {
                    queries: self.queries.remove(self.iq2id[id]),
                    iq2id: self.iq2id.remove(id),
                }
            } else {
                self
            },
            _ => self,
        }
    }

    /// What `event` makes ask next: the query and the result that the
    /// page asked for ends before.
    ///
    /// Joining a channel or opening a conversation asks for the newest
    /// page of their history; so does the wish for more history, from a
    /// given time on backwards. A report asks for the page before, where
    /// it closes a page of a query under way, says that the archive has
    /// more, and names a first result.
    pub open spec fn asks(self, event: EventView) -> Option<(QueryView, Seq<char>)> {
        match event {
            EventView::Join { channel } => Some(
                (
                    QueryView { jid: channel, with: None, from: None, count: PAGE as nat },
                    Seq::empty(),
                ),
            ),
            EventView::Chat { account, contact } => Some(
                (
                    QueryView {
                        jid: account,
                        with: Some(contact),
                        from: None,
                        count: PAGE as nat,
                    },
                    Seq::empty(),
                ),
            ),
            EventView::LoadChannelHistory { jid, from } => Some(
                (QueryView { jid, with: None, from, count: PAGE as nat }, Seq::empty()),
            ),
            EventView::LoadChatHistory { account, contact, from } => Some(
                (
                    QueryView { jid: account, with: Some(contact), from, count: PAGE as nat },
                    Seq::empty(),
                ),
            ),
            EventView::Iq { id, report } => match (self.closed_by(id), report) {
                (Some(query), ReportView::Fin { complete: false, first: Some(start) }) => Some(
                    (query, start),
                ),
                _ => None,
            },
        }
    }

    /// The state once the request marked `queryid` and `id` has been sent
    /// for `query`.
    pub open spec fn sent(self, query: QueryView, queryid: Seq<char>, id: Seq<char>) -> Archive {
        Archive { queries: self.queries.insert(queryid, query), iq2id: self.iq2id.insert(id, queryid) }
    }

    /// The state once a result marked `queryid` has come in: the query so
    /// marked asks for one message less, down to none.
    pub open spec fn counted(self, queryid: Seq<char>) -> Archive {
        if self.queries.contains_key(queryid) {
            let query = self.queries[queryid];
            Archive {
                queries: self.queries.insert(
                    queryid,
                    QueryView {
                        jid: query.jid,
                        with: query.with,
                        from: query.from,
                        count: if query.count > 0 {
                            (query.count - 1) as nat
                        } else {
                            0
                        },
                    },
                ),
                iq2id: self.iq2id,
            }
        } else {
            self
        }
    }
}

/// The queries `queries`, as mathematical values.
pub open spec fn queries_view(queries: Map<Seq<char>, Query>) -> Map<Seq<char>, QueryView> {
    Map::new(|k: Seq<char>| queries.contains_key(k), |k: Seq<char>| queries[k]@)
}

/// The marks `marks`, as mathematical values.
pub open spec fn marks_view(marks: Map<Seq<char>, String>) -> Map<Seq<char>, Seq<char>> {
    Map::new(|k: Seq<char>| marks.contains_key(k), |k: Seq<char>| marks[k]@)
}

/// The retrieval of message archives: the queries under way.
pub struct MamMod {
    /// Queries indexed by queryid
    queries: StringHashMap<Query>,
    /// Mapping between iq ids and query ids
    iq2id: StringHashMap<String>,
}

impl View for MamMod {
    type V = Archive;

    closed spec fn view(&self) -> Archive {
        Archive { queries: queries_view(self.queries@), iq2id: marks_view(self.iq2id@) }
    }
}

impl MamMod {
    /// No query under way.
    pub fn new() -> (r: MamMod)
        ensures
            r@.queries == Map::<Seq<char>, QueryView>::empty(),
            r@.iq2id == Map::<Seq<char>, Seq<char>>::empty(),
    {
        let r = MamMod { queries: StringHashMap::new(), iq2id: StringHashMap::new() };
        assert(r@.queries =~= Map::<Seq<char>, QueryView>::empty());
        assert(r@.iq2id =~= Map::<Seq<char>, Seq<char>>::empty());
        r
    }

    /// Whether the report marked `id` closes a page of a query under way.
    pub fn awaits(&self, id: &str) -> (r: bool)
        ensures
            r == self@.closed_by(id@) is Some,
    {
        match self.iq2id.get(id) {
            Some(queryid) => self.queries.contains_key(queryid.as_str()),
            None => false,
        }
    }

    /// Starts `query`: notes it under fresh marks, and returns the request
    /// to send for its newest page.
    pub fn query(&mut self, query: Query) -> (r: Request)
        ensures
            r@ == request_for(query@, r.queryid@, r.id@, Seq::empty()),
            final(self)@ == old(self)@.sent(query@, r.queryid@, r.id@),
    {
        let request = query.start();
        self.note(query, &request);
        request
    }

    /// Notes that `request` was made for `query`.
    fn note(&mut self, query: Query, request: &Request)
        ensures
            final(self)@ == old(self)@.sent(query@, request.queryid@, request.id@),
    {
        self.queries.insert(request.queryid.clone(), query);
        self.iq2id.insert(request.id.clone(), request.queryid.clone());
        assert(self@.queries =~= old(self)@.queries.insert(request.queryid@, query@));
        assert(self@.iq2id =~= old(self)@.iq2id.insert(request.id@, request.queryid@));
    }

    /// Takes note of a result marked `queryid`, and tells whether it
    /// belongs to a query under way, that is, whether to pass it on.
    pub fn handle_result(&mut self, queryid: &str) -> (r: bool)
        ensures
            r == old(self)@.queries.contains_key(queryid@),
            final(self)@ == old(self)@.counted(queryid@),
    {
        let counted = match self.queries.get(queryid) {
            Some(query) => Query {
                jid: query.jid.clone(),
                with: duplicate_text(&query.with),
                from: duplicate_text(&query.from),
                count: if query.count > 0 {
                    query.count - 1
                } else {
                    0
                },
            },
            None => {
                return false;
            },
        };
        self.queries.insert(queryid.to_owned(), counted);
        assert(self@.queries =~= old(self)@.counted(queryid@).queries);
        true
    }

    /// Takes note of `event`, and returns the request to send next, if
    /// there is one.
    pub fn on_event(&mut self, event: Event) -> (r: Option<Request>)
        ensures
            match old(self)@.asks(event@) {
                Some((query, before)) => r matches Some(request) && request@ == request_for(
                    query,
                    request.queryid@,
                    request.id@,
                    before,
                ) && final(self)@ == old(self)@.settled(event@).sent(
                    query,
                    request.queryid@,
                    request.id@,
                ),
                None => r is None && final(self)@ == old(self)@.settled(event@),
            },
    {
        match event {
            Event::Join { channel } => {
                let query = Query { jid: channel, with: None, from: None, count: PAGE };
                Some(self.query(query))
            },
            Event::Chat { account, contact } => {
                let query = Query { jid: account, with: Some(contact), from: None, count: PAGE };
                Some(self.query(query))
            },
            Event::LoadChannelHistory { jid, from } => {
                let query = Query { jid, with: None, from, count: PAGE };
                Some(self.query(query))
            },
            Event::LoadChatHistory { account, contact, from } => {
                let query = Query { jid: account, with: Some(contact), from, count: PAGE };
                Some(self.query(query))
            },
            Event::Iq { id, report } => {
                let queryid = match self.iq2id.get(id.as_str()) {
                    Some(queryid) => queryid.clone(),
                    None => {
                        return None;
                    },
                };
                self.iq2id.remove(id.as_str());
                let query = match self.queries.get(queryid.as_str()) {
                    Some(query) => Some(query.duplicate()),
                    None => None,
                };
                self.queries.remove(queryid.as_str());
                assert(self@.queries =~= old(self)@.settled(event@).queries);
                assert(self@.iq2id =~= old(self)@.settled(event@).iq2id);
                match query {
                    Some(query) => self.handle_fin(query, report),
                    None => None,
                }
            },
        }
    }

    /// Goes on with `query`, a page of which the report `report` closed:
    /// where the archive has more and the page had a first result, notes
    /// the query under fresh marks and returns the request for the page
    /// before.
    pub fn handle_fin(&mut self, query: Query, report: Report) -> (r: Option<Request>)
        ensures
            match report@ {
                ReportView::Fin { complete: false, first: Some(start) } => r matches Some(request)
                    && request@ == request_for(query@, request.queryid@, request.id@, start)
                    && final(self)@ == old(self)@.sent(query@, request.queryid@, request.id@),
                _ => r is None && final(self)@ == old(self)@,
            },
    {
        match report {
            Report::Fin { complete, first } => {
                if !complete {
                    if let Some(start) = first {
                        let request = query.cont(start);
                        self.note(query, &request);
                        return Some(request);
                    }
                }
                None
            },
            Report::Other => None,
        }
    }

    /// The name of the extension that this is about.
    pub fn description(&self) -> (r: String)
        ensures
            r@ == "XEP-0313: Message Archive Management"@,
    {
        "XEP-0313: Message Archive Management".to_owned()
    }
}

} // verus!
