//! Searching the CloudWatch logs of applications: which log streams of a
//! log group are searched, and the course of a search from one answer of
//! CloudWatch to the next. The application makes the calls and shows the
//! notices; the search decides what to ask and what to report.
use vstd::prelude::*;
use crate::external::{has_incl_overlap, incl_overlap};
use crate::shared::CommandError;
use crate::text::{
    append_str, chars_of, decimal, decimal_of, has_prefix, insert_unique, push_all, starts_with,
    string_from, strs_of,
};

verus! {

broadcast use vstd::string::group_string_axioms;

/// One log event found by a search.
#[derive(Debug)]
pub struct LogEntry {
    pub log_stream_name: String,
    pub timestamp: i64,
    pub ingestion_time: i64,
    pub message: String,
}

/// A log stream as `describe_log_streams` reports it.
pub struct LogStream {
    pub name: Option<String>,
    pub first_event_timestamp: Option<i64>,
    pub creation_time: Option<i64>,
    pub last_event_timestamp: Option<i64>,
    pub last_ingestion_time: Option<i64>,
}

/// The name of a stream, empty where it has none.
pub open spec fn stream_name(s: LogStream) -> Seq<char> {
    match s.name {
        Some(n) => n@,
        None => Seq::<char>::empty(),
    }
}

/// The prefix of the names of the streams of application `app`.
pub open spec fn stream_prefix(app: Seq<char>) -> Seq<char> {
    "web/"@ + app + "/"@
}

/// The first of `apps` whose streams the stream `name` is one of.
pub open spec fn app_of_stream(name: Seq<char>, apps: Seq<Seq<char>>) -> Option<Seq<char>>
    decreases apps.len(),
{
    if apps.len() == 0 {
        None
    } else if has_prefix(name, stream_prefix(apps[0])) {
        Some(apps[0])
    } else {
        app_of_stream(name, apps.skip(1))
    }
}

/// When a stream starts: its first event, else its creation, else never.
pub open spec fn stream_start(s: LogStream) -> int {
    match s.first_event_timestamp {
        Some(t) => t as int,
        None => match s.creation_time {
            Some(t) => t as int,
            None => i64::MAX as int,
        },
    }
}

/// When a stream ends: a minute after its last event (else its last
/// ingestion), or never.
pub open spec fn stream_end(s: LogStream) -> int {
    match s.last_event_timestamp {
        Some(t) => t + 60000,
        None => match s.last_ingestion_time {
            Some(t) => t + 60000,
            None => i64::MAX as int,
        },
    }
}

/// The end of the stream is a time that `i64` can hold.
pub open spec fn stream_readable(s: LogStream) -> bool {
    stream_end(s) <= i64::MAX
}

/// Whether the end of stream `s` is a time that `i64` can hold (see
/// `stream_readable`).
pub fn is_readable(s: &LogStream) -> (r: bool)
    ensures
        r == stream_readable(*s),
{
    match s.last_event_timestamp {
        Some(t) => t <= i64::MAX - 60000,
        None => match s.last_ingestion_time {
            Some(t) => t <= i64::MAX - 60000,
            None => true,
        },
    }
}

/// Whether every stream of a page is `stream_readable`, as `scan_page`
/// needs.
pub fn streams_readable(streams: &Vec<LogStream>) -> (r: bool)
    ensures
        r == forall|i: int| 0 <= i < streams.len() ==> stream_readable(#[trigger] streams@[i]),
{
    let mut i: usize = 0;
    while i < streams.len()
        invariant
            i <= streams.len(),
            forall|j: int| 0 <= j < i ==> stream_readable(#[trigger] streams@[j]),
        decreases streams.len() - i,
    {
        if !is_readable(&streams[i]) {
            return false;
        }
        i = i + 1;
    }
    true
}

/// The state of a stream search after seeing stream `s`: a stream of one of
/// `apps` whose time span overlaps `[start, end]` is found; the application
/// is done once one of its streams ended before `start`.
pub open spec fn scan_one(
    found: Seq<Seq<char>>,
    done: Seq<Seq<char>>,
    s: LogStream,
    apps: Seq<Seq<char>>,
    start: i64,
    end: i64,
) -> (Seq<Seq<char>>, Seq<Seq<char>>) {
    match app_of_stream(stream_name(s), apps) {
        None => (found, done),
        Some(app) => (
            if incl_overlap(stream_start(s), stream_end(s), start as int, end as int) {
                found.push(stream_name(s))
            } else {
                found
            },
            if stream_end(s) < start && !done.contains(app) {
                done.push(app)
            } else {
                done
            },
        ),
    }
}

/// Seeing a stream finds at most that stream.
pub proof fn lemma_scan_one_extends(
    found: Seq<Seq<char>>,
    done: Seq<Seq<char>>,
    s: LogStream,
    apps: Seq<Seq<char>>,
    start: i64,
    end: i64,
)
    ensures
        scan_one(found, done, s, apps, start, end).0 == found || scan_one(
            found,
            done,
            s,
            apps,
            start,
            end,
        ).0 == found.push(stream_name(s)),
{
}

/// The state of a stream search after seeing the streams `ss` in order.
pub open spec fn scan_all(
    found: Seq<Seq<char>>,
    done: Seq<Seq<char>>,
    ss: Seq<LogStream>,
    apps: Seq<Seq<char>>,
    start: i64,
    end: i64,
) -> (Seq<Seq<char>>, Seq<Seq<char>>)
    decreases ss.len(),
{
    if ss.len() == 0 {
        (found, done)
    } else {
        let prev = scan_all(found, done, ss.drop_last(), apps, start, end);
        scan_one(prev.0, prev.1, ss.last(), apps, start, end)
    }
}

/// The notice given when the `count`-th stream, `name`, is found.
pub open spec fn found_message(count: nat, name: Seq<char>) -> Seq<char> {
    "Searching for log streams, found "@ + decimal(count) + " stream(s). Last: "@ + name
}

/// The decimal digits of `n`.
fn number_text(n: usize) -> (r: Vec<char>)
    ensures
        r@ == decimal(n as nat),
{
    decimal_of(n as u64)
}

/// The position of the first of `apps` that stream `name` belongs to.
fn app_index(name: &Vec<char>, apps: &Vec<String>) -> (r: Option<usize>)
    ensures
        r is None <==> app_of_stream(name@, strs_of(apps@)) is None,
        r matches Some(i) ==> i < apps.len() && app_of_stream(name@, strs_of(apps@)) == Some(
            apps@[i as int]@,
        ),
{
    let ghost all = strs_of(apps@);
    let mut i: usize = 0;
    assert(all.skip(0) =~= all);
    while i < apps.len()
        invariant
            i <= apps.len(),
            all == strs_of(apps@),
            app_of_stream(name@, all) == app_of_stream(name@, all.skip(i as int)),
        decreases apps.len() - i,
    {
        let mut prefix = chars_of("web/");
        append_str(&mut prefix, apps[i].as_str());
        append_str(&mut prefix, "/");
        assert(all.skip(i as int)[0] == apps@[i as int]@);
        if starts_with(name, &prefix) {
            return Some(i);
        }
        assert(all.skip(i as int).skip(1) =~= all.skip(i + 1));
        i = i + 1;
    }
    None
}

/// The streams found so far by a search in one log group, and the
/// applications it is done with.
pub struct StreamScan {
    pub found: Vec<String>,
    pub done: Vec<String>,
}

impl StreamScan {
    /// A scan that has found nothing yet.
    pub fn new() -> (r: StreamScan)
        ensures
            r.found.len() == 0,
            r.done.len() == 0,
    {
        StreamScan { found: Vec::new(), done: Vec::new() }
    }

    /// Looks at one stream of `apps` against the searched time span
    /// `[start, end]`; where the stream is found, returns the notice that
    /// says so.
    pub fn scan_stream(&mut self, s: &LogStream, apps: &Vec<String>, start: i64, end: i64) -> (m:
        Option<String>)
        requires
            stream_readable(*s),
        ensures
            (strs_of(final(self).found@), strs_of(final(self).done@)) == scan_one(
                strs_of(old(self).found@),
                strs_of(old(self).done@),
                *s,
                strs_of(apps@),
                start,
                end,
            ),
            m is Some <==> final(self).found.len() > old(self).found.len(),
            m matches Some(t) ==> t@ == found_message(final(self).found.len() as nat, stream_name(*s)),
    {
        let name = match &s.name {
            Some(n) => chars_of(n.as_str()),
            None => Vec::new(),
        };
        let k = app_index(&name, apps);
        match k {
            None => None,
            Some(i) => {
                let first = match s.first_event_timestamp {
                    Some(t) => t,
                    None => match s.creation_time {
                        Some(t) => t,
                        None => i64::MAX,
                    },
                };
                let last = match s.last_event_timestamp {
                    Some(t) => t + 60000,
                    None => match s.last_ingestion_time {
                        Some(t) => t + 60000,
                        None => i64::MAX,
                    },
                };
                let overlaps = has_incl_overlap(first, last, start, end);
                if last < start {
                    insert_unique(&mut self.done, apps[i].clone());
                }
                if overlaps {
                    let stream = string_from(&name);
                    self.found.push(stream);
                    assert(strs_of(self.found@) =~= strs_of(old(self).found@).push(name@));
                    let mut text = chars_of("Searching for log streams, found ");
                    push_all(&mut text, &number_text(self.found.len()));
                    append_str(&mut text, " stream(s). Last: ");
                    push_all(&mut text, &name);
                    Some(string_from(&text))
                } else {
                    None
                }
            },
        }
    }

    /// Looks at a page of streams in order and returns the notices of the
    /// streams found, in order.
    pub fn scan_page(&mut self, streams: &Vec<LogStream>, apps: &Vec<String>, start: i64, end: i64) -> (msgs:
        Vec<String>)
        requires
            forall|i: int| 0 <= i < streams.len() ==> stream_readable(#[trigger] streams@[i]),
        ensures
            (strs_of(final(self).found@), strs_of(final(self).done@)) == scan_all(
                strs_of(old(self).found@),
                strs_of(old(self).done@),
                streams@,
                strs_of(apps@),
                start,
                end,
            ),
            old(self).found.len() <= final(self).found.len(),
            msgs.len() == final(self).found.len() - old(self).found.len(),
            forall|i: int|
                0 <= i < msgs.len() ==> (#[trigger] msgs@[i])@ == found_message(
                    (old(self).found.len() + i + 1) as nat,
                    final(self).found@[old(self).found.len() + i]@,
                ),
    {
        let ghost f0 = strs_of(self.found@);
        let ghost d0 = strs_of(self.done@);
        let ghost n0 = self.found.len();
        let mut msgs: Vec<String> = Vec::new();
        let mut i: usize = 0;
        while i < streams.len()
            invariant
                i <= streams.len(),
                forall|j: int| 0 <= j < streams.len() ==> stream_readable(#[trigger] streams@[j]),
                (strs_of(self.found@), strs_of(self.done@)) == scan_all(
                    f0,
                    d0,
                    streams@.take(i as int),
                    strs_of(apps@),
                    start,
                    end,
                ),
                n0 <= self.found.len(),
                msgs.len() == self.found.len() - n0,
                forall|j: int|
                    0 <= j < msgs.len() ==> (#[trigger] msgs@[j])@ == found_message(
                        (n0 + j + 1) as nat,
                        self.found@[n0 + j]@,
                    ),
            decreases streams.len() - i,
        {
            let ghost before = self.found@;
            let ghost pre = streams@.take(i as int);
            let ghost next = streams@.take(i + 1);
            assert(next.drop_last() =~= pre);
            assert(next.last() == streams@[i as int]);
            let m = self.scan_stream(&streams[i], apps, start, end);
            proof {
                lemma_scan_one_extends(
                    strs_of(before),
                    scan_all(f0, d0, pre, strs_of(apps@), start, end).1,
                    streams@[i as int],
                    strs_of(apps@),
                    start,
                    end,
                );
                assert(strs_of(self.found@).len() == self.found@.len());
                assert(strs_of(before).len() == before.len());
                assert forall|k: int| 0 <= k < before.len() implies #[trigger] self.found@[k]@
                    == before[k]@ by {
                    assert(strs_of(self.found@)[k] == self.found@[k]@);
                    assert(strs_of(before)[k] == before[k]@);
                }
            }
            match m {
                Some(t) => {
                    proof {
                        let last = (self.found@.len() - 1) as int;
                        assert(strs_of(self.found@) == strs_of(before).push(stream_name(streams@[i as int])));
                        assert(strs_of(self.found@)[last] == self.found@[last]@);
                    }
                    let ghost old_msgs = msgs@;
                    msgs.push(t);
                    assert forall|j: int| 0 <= j < msgs.len() implies (#[trigger] msgs@[j])@ == found_message(
                        (n0 + j + 1) as nat,
                        self.found@[n0 + j]@,
                    ) by {
                        if j < old_msgs.len() {
                            assert(msgs@[j] == old_msgs[j]);
                        }
                    }
                },
                None => {},
            }
            i = i + 1;
        }
        assert(streams@.take(streams.len() as int) =~= streams@);
        msgs
    }

    /// Whether the search for streams is over after a page: every
    /// application is done, or there is no further page.
    pub fn finished(&self, apps: &Vec<String>, next_token: &Option<String>) -> (r: bool)
        ensures
            r == (apps.len() == self.done.len() || next_token is None),
    {
        apps.len() == self.done.len() || next_token.is_none()
    }
}

/// Where a search stands: looking for the streams of group `g`, reading
/// pages of log events of group `g`, or done.
#[derive(Clone, Copy, Debug, PartialEq, Eq, Structural)]
pub enum SearchStage {
    Streams(usize),
    Logs(usize),
    Done,
}

/// What a search reports to whoever follows it.
#[derive(Debug)]
pub enum Notice {
    Message(String),
    Error(String),
    Success(String),
    Found(Vec<LogEntry>),
}

/// What the application is to do next for a search.
#[derive(Debug)]
pub enum SearchAction {
    /// Find the streams of this log group that the search covers.
    FindStreams(String),
    /// Fetch a page of the events of these streams of this log group.
    FetchLogs { group: String, streams: Vec<String>, next_token: Option<String> },
    /// The search is over, with the number of events found or an error.
    Finish(Result<usize, CommandError>),
}

/// A page of log events, and the token of the next page if there is one.
pub struct LogPage {
    pub events: Vec<LogEntry>,
    pub next_token: Option<String>,
}

/// A search through the log groups of an environment.
pub struct LogSearch {
    pub groups: Vec<String>,
    pub limit: Option<usize>,
    pub streams: Vec<String>,
    pub log_count: usize,
    pub stage: SearchStage,
}

/// The notice that starts a search.
pub open spec fn started_text() -> Seq<char> {
    "Search log streams in progress..."@
}

/// The notice of a search that found no stream.
pub open spec fn no_streams_text() -> Seq<char> {
    "No log streams found having logs in given timeframe."@
}

/// The notice that the events of `n` streams are being searched.
pub open spec fn searching_text(n: nat) -> Seq<char> {
    "Searching in "@ + decimal(n) + " log stream(s)..."@
}

/// The notice of the progress of a search in `n` streams with `c` events.
pub open spec fn progress_text(n: nat, c: nat) -> Seq<char> {
    "Searching in "@ + decimal(n) + " log stream(s), found "@ + decimal(c) + " logs..."@
}

/// The notice of a search stopped at the limit `l` with `c` events.
pub open spec fn aborted_text(n: nat, c: nat, l: nat) -> Seq<char> {
    "Search in "@ + decimal(n) + " log stream(s) aborted, found "@ + decimal(c)
        + " logs. Reached limit of "@ + decimal(l) + " logs."@
}

/// The notice of a finished search.
pub open spec fn done_text(n: nat, c: nat) -> Seq<char> {
    "Search in "@ + decimal(n) + " log stream(s) done. Found "@ + decimal(c) + " logs."@
}

/// A message notice with text `t`.
pub open spec fn is_message(n: Notice, t: Seq<char>) -> bool {
    n matches Notice::Message(m) && m@ == t
}

/// An error notice with text `t`.
pub open spec fn is_error(n: Notice, t: Seq<char>) -> bool {
    n matches Notice::Error(m) && m@ == t
}

/// A success notice with text `t`.
pub open spec fn is_success(n: Notice, t: Seq<char>) -> bool {
    n matches Notice::Success(m) && m@ == t
}

/// The streams whose events a search reads: the first hundred.
pub open spec fn first_chunk(streams: Seq<Seq<char>>) -> Seq<Seq<char>> {
    if streams.len() <= 100 {
        streams
    } else {
        streams.take(100)
    }
}

/// The action fetches events of `chunk` in `group` from page `token` on.
pub open spec fn fetches(
    a: SearchAction,
    group: Seq<char>,
    chunk: Seq<Seq<char>>,
    token: Option<Seq<char>>,
) -> bool {
    a matches SearchAction::FetchLogs { group: g, streams: s, next_token: t } && g@ == group
        && strs_of(s@) == chunk && crate::text::opt_view(t) == token
}

/// The action ends the search with `c` events.
pub open spec fn finishes_with(a: SearchAction, c: nat) -> bool {
    a matches SearchAction::Finish(Ok(k)) && k == c
}

/// The action ends the search with the error `m`.
pub open spec fn fails_with(a: SearchAction, m: Seq<char>) -> bool {
    a matches SearchAction::Finish(Err(e)) && e.command@ == "find_logs"@ && e.message@ == m
}

/// `text` followed by the decimal digits of `n`.
fn push_number(text: &mut Vec<char>, n: usize)
    ensures
        final(text)@ == old(text)@ + decimal(n as nat),
{
    let digits = number_text(n);
    push_all(text, &digits);
}

impl LogSearch {
    /// The stage points into the groups, and a search that reads events has
    /// streams to read them from.
    pub open spec fn wf(&self) -> bool {
        match self.stage {
            SearchStage::Streams(g) => g < self.groups.len(),
            SearchStage::Logs(g) => g < self.groups.len() && self.streams.len() > 0,
            SearchStage::Done => true,
        }
    }

    /// The action `a` is the one the search waits on: streams are looked
    /// for at the `Streams` stage, pages of events fetched at the `Logs`
    /// stage, and the search is over once it finishes.
    pub open spec fn awaits(&self, a: SearchAction) -> bool {
        match a {
            SearchAction::FindStreams(_) => self.stage is Streams,
            SearchAction::FetchLogs { .. } => self.stage is Logs,
            SearchAction::Finish(_) => self.stage is Done,
        }
    }

    /// Starts a search through `groups`, stopping once more than `limit`
    /// events were found, where there is a limit.
    pub fn start(groups: Vec<String>, limit: Option<usize>) -> (r: (LogSearch, Vec<Notice>, SearchAction))
        ensures
            r.0.wf(),
            r.0.awaits(r.2),
            r.0.groups == groups,
            r.0.limit == limit,
            r.0.log_count == 0,
            r.0.streams.len() == 0,
            r.1.len() >= 1,
            is_message(r.1@[0], started_text()),
            groups.len() > 0 ==> r.1.len() == 1 && r.0.stage == SearchStage::Streams(0)
                && (r.2 matches SearchAction::FindStreams(g) && g@ == groups@[0]@),
            groups.len() == 0 ==> r.1.len() == 2 && is_success(r.1@[1], done_text(0, 0))
                && r.0.stage == SearchStage::Done && finishes_with(r.2, 0),
    {
        let mut notices: Vec<Notice> = Vec::new();
        notices.push(Notice::Message("Search log streams in progress...".to_string()));
        if groups.len() > 0 {
            let first = groups[0].clone();
            (
                LogSearch { groups, limit, streams: Vec::new(), log_count: 0, stage: SearchStage::Streams(0) },
                notices,
                SearchAction::FindStreams(first),
            )
        } else {
            let mut text = chars_of("Search in ");
            push_number(&mut text, 0);
            append_str(&mut text, " log stream(s) done. Found ");
            push_number(&mut text, 0);
            append_str(&mut text, " logs.");
            notices.push(Notice::Success(string_from(&text)));
            (
                LogSearch { groups, limit, streams: Vec::new(), log_count: 0, stage: SearchStage::Done },
                notices,
                SearchAction::Finish(Ok(0)),
            )
        }
    }

    /// The first hundred streams of the search.
    fn chunk(&self) -> (r: Vec<String>)
        ensures
            strs_of(r@) == first_chunk(strs_of(self.streams@)),
    {
        let n = if self.streams.len() <= 100 {
            self.streams.len()
        } else {
            100
        };
        let mut r: Vec<String> = Vec::new();
        let mut i: usize = 0;
        while i < n
            invariant
                i <= n,
                n <= self.streams.len(),
                n == (if self.streams.len() <= 100 { self.streams.len() } else { 100 }),
                strs_of(r@) == strs_of(self.streams@).take(i as int),
            decreases n - i,
        {
            let ghost prev = r@;
            let item = self.streams[i].clone();
            assert(item@ == self.streams@[i as int]@);
            r.push(item);
            assert(r@ == prev.push(item));
            assert(strs_of(r@) =~= strs_of(prev).push(item@));
            assert(strs_of(r@) =~= strs_of(self.streams@).take(i + 1));
            i = i + 1;
        }
        assert(strs_of(self.streams@).take(n as int) =~= first_chunk(strs_of(self.streams@)));
        r
    }

    /// Takes the streams found in the group searched: an error ends the
    /// search with no event found, as does a group without streams; else
    /// the search goes on to read the events of that group, fetching the
    /// first page of events of its first hundred streams.
    pub fn on_streams(&mut self, found: Result<Vec<String>, String>) -> (r: (Vec<Notice>, SearchAction))
        requires
            old(self).wf(),
            old(self).stage is Streams,
        ensures
            final(self).wf(),
            final(self).awaits(r.1),
            final(self).groups == old(self).groups,
            final(self).limit == old(self).limit,
            final(self).log_count == old(self).log_count,
            found matches Err(e) ==> r.0.len() == 1 && is_error(r.0@[0], e@)
                && final(self).stage == SearchStage::Done && finishes_with(r.1, 0),
            found matches Ok(names) ==> (names.len() == 0 ==> r.0.len() == 1 && is_success(
                r.0@[0],
                no_streams_text(),
            ) && final(self).stage == SearchStage::Done && finishes_with(r.1, 0)),
            found matches Ok(names) ==> (names.len() > 0 ==> r.0.len() == 1 && final(self).streams
                == names && is_message(r.0@[0], searching_text(names.len() as nat))
                && final(self).stage == SearchStage::Logs(old(self).stage->Streams_0) && fetches(
                r.1,
                old(self).groups@[old(self).stage->Streams_0 as int]@,
                first_chunk(strs_of(names@)),
                None,
            )),
    {
        let g = match self.stage {
            SearchStage::Streams(g) => g,
            _ => 0,
        };
        let mut notices: Vec<Notice> = Vec::new();
        match found {
            Err(e) => {
                notices.push(Notice::Error(e));
                self.stage = SearchStage::Done;
                (notices, SearchAction::Finish(Ok(0)))
            },
            Ok(names) => {
                if names.len() == 0 {
                    notices.push(
                        Notice::Success("No log streams found having logs in given timeframe.".to_string()),
                    );
                    self.stage = SearchStage::Done;
                    (notices, SearchAction::Finish(Ok(0)))
                } else {
                    let mut text = chars_of("Searching in ");
                    push_number(&mut text, names.len());
                    append_str(&mut text, " log stream(s)...");
                    notices.push(Notice::Message(string_from(&text)));
                    self.streams = names;
                    self.stage = SearchStage::Logs(g);
                    let chunk = self.chunk();
                    let group = self.groups[g].clone();
                    (notices, SearchAction::FetchLogs { group, streams: chunk, next_token: None })
                }
            },
        }
    }

    /// Takes a page of events: an error ends the search with it; else the
    /// events are reported with the progress, and the search stops at the
    /// limit, goes on with the next page, goes on with the next group, or
    /// is done. Only the first hundred streams of a group are read.
    pub fn on_page(&mut self, page: Result<LogPage, String>) -> (r: (Vec<Notice>, SearchAction))
        requires
            old(self).wf(),
            old(self).stage is Logs,
            page matches Ok(p) ==> old(self).log_count + p.events.len() <= usize::MAX,
        ensures
            final(self).wf(),
            final(self).awaits(r.1),
            final(self).groups == old(self).groups,
            final(self).limit == old(self).limit,
            final(self).streams == old(self).streams,
            page matches Err(m) ==> r.0.len() == 1 && is_error(r.0@[0], "Error: "@ + m@)
                && final(self).stage == SearchStage::Done && fails_with(r.1, m@),
            page matches Ok(p) ==> ({
                let g = old(self).stage->Logs_0 as int;
                let n = old(self).streams.len() as nat;
                let c = (old(self).log_count + p.events.len()) as nat;
                &&& final(self).log_count == c
                &&& r.0.len() >= 2
                &&& (r.0@[0] matches Notice::Found(es) && es == p.events)
                &&& is_message(r.0@[1], progress_text(n, c))
                &&& if old(self).limit is Some && c > old(self).limit.unwrap() {
                    &&& r.0.len() == 3
                    &&& is_error(r.0@[2], aborted_text(n, c, old(self).limit.unwrap() as nat))
                    &&& final(self).stage == SearchStage::Done
                    &&& fails_with(r.1, aborted_text(n, c, old(self).limit.unwrap() as nat))
                } else if p.next_token is Some {
                    &&& r.0.len() == 2
                    &&& final(self).stage == old(self).stage
                    &&& fetches(
                        r.1,
                        old(self).groups@[g]@,
                        first_chunk(strs_of(old(self).streams@)),
                        Some(p.next_token.unwrap()@),
                    )
                } else if g + 1 < old(self).groups.len() {
                    &&& r.0.len() == 2
                    &&& final(self).stage == SearchStage::Streams((g + 1) as usize)
                    &&& (r.1 matches SearchAction::FindStreams(gr) && gr@ == old(self).groups@[g + 1]@)
                } else {
                    &&& r.0.len() == 3
                    &&& is_success(r.0@[2], done_text(n, c))
                    &&& final(self).stage == SearchStage::Done
                    &&& finishes_with(r.1, c)
                }
            }),
    {
        let g = match self.stage {
            SearchStage::Logs(g) => g,
            _ => 0,
        };
        let mut notices: Vec<Notice> = Vec::new();
        match page {
            Err(m) => {
                let mut text = chars_of("Error: ");
                append_str(&mut text, m.as_str());
                notices.push(Notice::Error(string_from(&text)));
                self.stage = SearchStage::Done;
                (notices, SearchAction::Finish(Err(CommandError::new("find_logs", m))))
            },
            Ok(p) => {
                let n = self.streams.len();
                self.log_count = self.log_count + p.events.len();
                let c = self.log_count;
                let next_token = p.next_token;
                notices.push(Notice::Found(p.events));
                let mut text = chars_of("Searching in ");
                push_number(&mut text, n);
                append_str(&mut text, " log stream(s), found ");
                push_number(&mut text, c);
                append_str(&mut text, " logs...");
                notices.push(Notice::Message(string_from(&text)));
                let over = match self.limit {
                    Some(l) => c > l,
                    None => false,
                };
                if over {
                    let l = match self.limit {
                        Some(l) => l,
                        None => 0,
                    };
                    let mut text = chars_of("Search in ");
                    push_number(&mut text, n);
                    append_str(&mut text, " log stream(s) aborted, found ");
                    push_number(&mut text, c);
                    append_str(&mut text, " logs. Reached limit of ");
                    push_number(&mut text, l);
                    append_str(&mut text, " logs.");
                    let msg = string_from(&text);
                    notices.push(Notice::Error(msg.clone()));
                    self.stage = SearchStage::Done;
                    (notices, SearchAction::Finish(Err(CommandError::new("find_logs", msg))))
                } else {
                    match next_token {
                        Some(t) => {
                            let chunk = self.chunk();
                            let group = self.groups[g].clone();
                            (notices, SearchAction::FetchLogs { group, streams: chunk, next_token: Some(t) })
                        },
                        None => {
                            if g + 1 < self.groups.len() {
                                self.stage = SearchStage::Streams(g + 1);
                                let group = self.groups[g + 1].clone();
                                (notices, SearchAction::FindStreams(group))
                            } else {
                                let mut text = chars_of("Search in ");
                                push_number(&mut text, n);
                                append_str(&mut text, " log stream(s) done. Found ");
                                push_number(&mut text, c);
                                append_str(&mut text, " logs.");
                                notices.push(Notice::Success(string_from(&text)));
                                self.stage = SearchStage::Done;
                                (notices, SearchAction::Finish(Ok(c)))
                            }
                        },
                    }
                }
            },
        }
    }
}

/// An entry that reports `text` at time `now`, in no stream.
fn report_entry(text: Vec<char>, now: i64) -> (e: LogEntry)
    ensures
        e.log_stream_name@ == "-"@,
        e.timestamp == now,
        e.ingestion_time == now,
        e.message@ == text@,
{
    LogEntry { log_stream_name: "-".to_string(), timestamp: now, ingestion_time: now, message: string_from(&text) }
}

/// The entry shown when a page of events went to a file instead of the
/// screen: the first event's stream and ingestion time, the time `now`, and
/// how many events were stored. No entry for an empty page.
pub fn stored_entry(logs: &Vec<LogEntry>, now: i64) -> (r: Option<LogEntry>)
    ensures
        logs.len() == 0 ==> r is None,
        logs.len() > 0 ==> (r matches Some(e) && e.log_stream_name@ == logs@[0].log_stream_name@
            && e.ingestion_time == logs@[0].ingestion_time && e.timestamp == now && e.message@
            == "INFO Stored "@ + decimal(logs.len() as nat) + " logs"@),
{
    if logs.len() == 0 {
        return None;
    }
    let mut text = chars_of("INFO Stored ");
    push_number(&mut text, logs.len());
    append_str(&mut text, " logs");
    Some(
        LogEntry {
            log_stream_name: logs[0].log_stream_name.clone(),
            timestamp: now,
            ingestion_time: logs[0].ingestion_time,
            message: string_from(&text),
        },
    )
}

/// The entry that names the file a finished search wrote to.
pub fn file_trace_entry(location: &str, now: i64) -> (e: LogEntry)
    ensures
        e.log_stream_name@ == "-"@,
        e.timestamp == now,
        e.ingestion_time == now,
        e.message@ == "TRACE File: "@ + location@,
{
    let mut text = chars_of("TRACE File: ");
    append_str(&mut text, location);
    report_entry(text, now)
}

/// The entry that shows an error of a search written to a file.
pub fn error_entry(msg: &str, now: i64) -> (e: LogEntry)
    ensures
        e.log_stream_name@ == "-"@,
        e.timestamp == now,
        e.ingestion_time == now,
        e.message@ == "ERROR "@ + msg@,
{
    let mut text = chars_of("ERROR ");
    append_str(&mut text, msg);
    report_entry(text, now)
}

/// The entry that shows a message of a search written to a file.
pub fn info_entry(msg: &str, now: i64) -> (e: LogEntry)
    ensures
        e.log_stream_name@ == "-"@,
        e.timestamp == now,
        e.ingestion_time == now,
        e.message@ == "INFO "@ + msg@,
{
    let mut text = chars_of("INFO ");
    append_str(&mut text, msg);
    report_entry(text, now)
}

/// The most events a search shown on screen reports; a search written to a
/// file has no limit.
pub fn search_limit(to_file: bool) -> (r: Option<usize>)
    ensures
        to_file ==> r is None,
        !to_file ==> r == Some(10000usize),
{
    if to_file {
        None
    } else {
        Some(10000)
    }
}

/// The filter pattern of a search: none for an empty filter.
pub fn filter_pattern(filter: String) -> (r: Option<String>)
    ensures
        filter@.len() == 0 ==> r is None,
        filter@.len() > 0 ==> r == Some(filter),
{
    if chars_of(filter.as_str()).len() == 0 {
        None
    } else {
        Some(filter)
    }
}

/// The name of the file a search writes to: the chosen name, the time in
/// milliseconds, and `.log`.
pub fn log_file_name(filename: &str, millis: u64) -> (r: String)
    ensures
        r@ == filename@ + "-"@ + decimal(millis as nat) + ".log"@,
{
    let mut text = chars_of(filename);
    append_str(&mut text, "-");
    push_all(&mut text, &decimal_of(millis));
    append_str(&mut text, ".log");
    string_from(&text)
}

/// The prefix of the names of the log groups of environment `env`.
pub fn log_group_prefix(env: crate::shared::Env) -> (r: String)
    ensures
        r@ == "dsi-"@ + crate::shared::env_name(env) + "-"@,
{
    let mut text = chars_of("dsi-");
    append_str(&mut text, env.name().as_str());
    append_str(&mut text, "-");
    string_from(&text)
}

} // verus!
