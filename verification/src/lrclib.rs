//! Lookups at LRCLib: what a request asks, what its answer means, and how far apart requests stay.
use vstd::prelude::*;

use crate::tags;
use crate::tags::TrackTags;
use crate::text;

verus! {

pub const API_URL: &'static str = "https://lrclib.net/api/get";

pub const USER_AGENT: &'static str = "lrcget-cli/0.1 (contact: codeberg.org/lutyjj/lrcget-cli)";

/// The pause before the one repetition of a refused request, where the answer gives none.
pub const DEFAULT_PAUSE_SECS: u64 = 30;

pub const MAX_PAUSE_SECS: u64 = 120;

pub const NANOS_PER_MILLI: u128 = 1_000_000;

#[derive(Debug)]
pub enum LyricsResult {
    Found(String),
    NotFound,
    TemporaryFailure,
}

/// The contents of a `LyricsResult`.
pub enum LyricsView {
    Found(Seq<char>),
    NotFound,
    TemporaryFailure,
}

impl View for LyricsResult {
    type V = LyricsView;

    open spec fn view(&self) -> LyricsView {
        match self {
            LyricsResult::Found(lyrics) => LyricsView::Found(lyrics@),
            LyricsResult::NotFound => LyricsView::NotFound,
            LyricsResult::TemporaryFailure => LyricsView::TemporaryFailure,
        }
    }
}

/// The answer to a lookup that found the track.
#[derive(Debug)]
pub struct LrclibResponse {
    pub synced_lyrics: Option<String>,
    pub plain_lyrics: Option<String>,
}

/// The lyrics of an answer: the synced ones where there are any, else the plain ones. Blank lyrics
/// are none.
pub open spec fn lyrics_in(body: LrclibResponse) -> LyricsView {
    let lyrics = if body.synced_lyrics is Some {
        body.synced_lyrics
    } else {
        body.plain_lyrics
    };
    match lyrics {
        Some(l) => if text::is_blank(l@) {
            LyricsView::NotFound
        } else {
            LyricsView::Found(l@)
        },
        None => LyricsView::NotFound,
    }
}

/// The lyrics that an answer holds.
pub fn read_body(body: LrclibResponse) -> (r: LyricsResult)
    ensures
        r@ == lyrics_in(body),
{
    let lyrics = if body.synced_lyrics.is_some() {
        body.synced_lyrics
    } else {
        body.plain_lyrics
    };
    match lyrics {
        Some(l) => {
            proof {
                text::law_trimmed(l@);
            }
            if l.as_str().trim().is_empty() {
                LyricsResult::NotFound
            } else {
                LyricsResult::Found(l)
            }
        },
        None => LyricsResult::NotFound,
    }
}

/// The parameters that a lookup of a track sends, by name and value. A missing album and an unknown
/// length are left out.
pub open spec fn query_of(t: tags::TagsView) -> Seq<(Seq<char>, Seq<char>)> {
    let named = seq![("artist_name"@, t.artist), ("track_name"@, t.title)];
    let album = if t.album.len() > 0 {
        seq![("album_name"@, t.album)]
    } else {
        Seq::empty()
    };
    let duration = if t.duration_secs > 0 {
        seq![("duration"@, text::decimal_text(t.duration_secs as nat))]
    } else {
        Seq::empty()
    };
    named + album + duration
}

/// The texts of a row of pairs.
pub open spec fn pair_texts(v: Seq<(String, String)>) -> Seq<(Seq<char>, Seq<char>)> {
    v.map_values(|p: (String, String)| (p.0@, p.1@))
}

fn push_param(params: &mut Vec<(String, String)>, name: &str, value: String)
    ensures
        pair_texts(final(params)@) == pair_texts(old(params)@).push((name@, value@)),
{
    params.push((name.to_owned(), value));
    proof {
        assert(pair_texts(params@) =~= pair_texts(old(params)@).push((name@, value@)));
    }
}

pub fn query_params(t: &TrackTags) -> (r: Vec<(String, String)>)
    ensures
        pair_texts(r@) == query_of(t@),
{
    let mut params: Vec<(String, String)> = Vec::new();
    proof {
        assert(pair_texts(params@) =~= Seq::<(Seq<char>, Seq<char>)>::empty());
    }
    push_param(&mut params, "artist_name", t.artist.clone());
    push_param(&mut params, "track_name", t.title.clone());
    if !t.album.as_str().is_empty() {
        push_param(&mut params, "album_name", t.album.clone());
    }
    if t.duration_secs > 0 {
        push_param(&mut params, "duration", text::number_text(t.duration_secs as u64));
    }
    proof {
        assert(pair_texts(params@) =~= query_of(t@));
    }
    params
}

/// How long to pause on the word of a `Retry-After` header: the seconds that it gives, at most two
/// minutes; half a minute where it gives none.
pub open spec fn pause_for(retry_after: Option<Seq<char>>) -> u64 {
    let given = match retry_after {
        Some(value) => match text::number_in(value) {
            Some(secs) => if secs <= u64::MAX {
                Some(secs as u64)
            } else {
                None
            },
            None => None,
        },
        None => None,
    };
    match given {
        Some(secs) => if secs <= MAX_PAUSE_SECS {
            secs
        } else {
            MAX_PAUSE_SECS
        },
        None => DEFAULT_PAUSE_SECS,
    }
}

pub fn pause_secs(retry_after: Option<&str>) -> (r: u64)
    ensures
        r == pause_for(
            match retry_after {
                Some(value) => Some(value@),
                None => None,
            },
        ),
{
    let given = match retry_after {
        Some(value) => text::parse_number(value, u64::MAX),
        None => None,
    };
    match given {
        Some(secs) => if secs <= MAX_PAUSE_SECS {
            secs
        } else {
            MAX_PAUSE_SECS
        },
        None => DEFAULT_PAUSE_SECS,
    }
}

/// What a lookup waits for.
#[derive(Debug)]
pub enum FetchState {
    /// The request is to be sent, once the rate limiter allows it.
    Sending { retry_allowed: bool },
    /// The body of a successful answer is to be read.
    ReadingBody,
    /// The request is to be repeated after a pause.
    Pausing { secs: u64 },
    Done { result: LyricsResult },
}

/// What happened to a lookup.
#[derive(Debug)]
pub enum FetchEvent {
    /// The request could not be sent, or got no answer.
    SendFailed,
    /// An answer came with this status, and this `Retry-After` header if it has one in text.
    Status { code: u16, retry_after: Option<String> },
    /// The body was read, or could not be understood.
    Body { body: Option<LrclibResponse> },
    /// The pause is over.
    Rested,
}

/// The contents of a `FetchState`.
pub enum FetchView {
    Sending { retry_allowed: bool },
    ReadingBody,
    Pausing { secs: u64 },
    Done { result: LyricsView },
}

impl View for FetchState {
    type V = FetchView;

    open spec fn view(&self) -> FetchView {
        match self {
            FetchState::Sending { retry_allowed } => FetchView::Sending {
                retry_allowed: *retry_allowed,
            },
            FetchState::ReadingBody => FetchView::ReadingBody,
            FetchState::Pausing { secs } => FetchView::Pausing { secs: *secs },
            FetchState::Done { result } => FetchView::Done { result: result@ },
        }
    }
}

/// Where an answer with the given status leads. A refusal for too many requests is worth one
/// repetition, any other failure none.
pub open spec fn after_status(
    code: u16,
    retry_after: Option<Seq<char>>,
    retry_allowed: bool,
) -> FetchView {
    if code == 200 {
        FetchView::ReadingBody
    } else if code == 404 {
        FetchView::Done { result: LyricsView::NotFound }
    } else if code == 429 && retry_allowed {
        FetchView::Pausing { secs: pause_for(retry_after) }
    } else {
        FetchView::Done { result: LyricsView::TemporaryFailure }
    }
}

/// Where an event leads. An event that the lookup does not wait for changes nothing.
pub open spec fn fetch_step(state: FetchView, event: FetchEvent) -> FetchView {
    match (state, event) {
        (FetchView::Sending { .. }, FetchEvent::SendFailed) => FetchView::Done {
            result: LyricsView::TemporaryFailure,
        },
        (FetchView::Sending { retry_allowed }, FetchEvent::Status { code, retry_after }) =>
            after_status(code, text::option_text(retry_after), retry_allowed),
        (FetchView::ReadingBody, FetchEvent::Body { body }) => FetchView::Done {
            result: match body {
                Some(b) => lyrics_in(b),
                None => LyricsView::TemporaryFailure,
            },
        },
        (FetchView::Pausing { .. }, FetchEvent::Rested) => FetchView::Sending {
            retry_allowed: false,
        },
        _ => state,
    }
}

fn handle_status(code: u16, retry_after: Option<String>, retry_allowed: bool) -> (r: FetchState)
    ensures
        r@ == after_status(code, text::option_text(retry_after), retry_allowed),
{
    if code == 200 {
        FetchState::ReadingBody
    } else if code == 404 {
        FetchState::Done { result: LyricsResult::NotFound }
    } else if code == 429 && retry_allowed {
        let secs = match &retry_after {
            Some(value) => pause_secs(Some(value.as_str())),
            None => pause_secs(None),
        };
        FetchState::Pausing { secs }
    } else {
        FetchState::Done { result: LyricsResult::TemporaryFailure }
    }
}

/// Takes a lookup on by one event.
pub fn fetch_once(state: FetchState, event: FetchEvent) -> (r: FetchState)
    ensures
        r@ == fetch_step(state@, event),
{
    match (state, event) {
        (FetchState::Sending { .. }, FetchEvent::SendFailed) => FetchState::Done {
            result: LyricsResult::TemporaryFailure,
        },
        (FetchState::Sending { retry_allowed }, FetchEvent::Status { code, retry_after }) =>
            handle_status(code, retry_after, retry_allowed),
        (FetchState::ReadingBody, FetchEvent::Body { body: Some(body) }) => FetchState::Done {
            result: read_body(body),
        },
        (FetchState::ReadingBody, FetchEvent::Body { body: None }) => FetchState::Done {
            result: LyricsResult::TemporaryFailure,
        },
        (FetchState::Pausing { .. }, FetchEvent::Rested) => FetchState::Sending {
            retry_allowed: false,
        },
        (state, _) => state,
    }
}

/// The state after a row of events.
pub open spec fn fetch_run(state: FetchView, events: Seq<FetchEvent>) -> FetchView
    decreases events.len(),
{
    if events.len() == 0 {
        state
    } else {
        fetch_run(fetch_step(state, events.first()), events.drop_first())
    }
}

/// How many requests a row of events answers, or reports as failed.
pub open spec fn requests_made(state: FetchView, events: Seq<FetchEvent>) -> nat
    decreases events.len(),
{
    if events.len() == 0 {
        0
    } else {
        let now: nat = if state is Sending && (events.first() is SendFailed
            || events.first() is Status) {
            1
        } else {
            0
        };
        now + requests_made(fetch_step(state, events.first()), events.drop_first())
    }
}

proof fn lemma_requests_bounded(state: FetchView, events: Seq<FetchEvent>)
    ensures
        requests_made(state, events) <= (match state {
            FetchView::Sending { retry_allowed } => if retry_allowed {
                2nat
            } else {
                1nat
            },
            FetchView::Pausing { .. } => 1nat,
            _ => 0nat,
        }),
    decreases events.len(),
{
    if events.len() > 0 {
        lemma_requests_bounded(fetch_step(state, events.first()), events.drop_first());
    }
}

/// A lookup makes at most two requests, whatever the answers.
pub proof fn law_at_most_two_requests(events: Seq<FetchEvent>)
    ensures
        requests_made(FetchView::Sending { retry_allowed: true }, events) <= 2,
{
    lemma_requests_bounded(FetchView::Sending { retry_allowed: true }, events);
}

proof fn lemma_pauses_bounded(state: FetchView, events: Seq<FetchEvent>)
    requires
        state matches FetchView::Pausing { secs } ==> secs <= MAX_PAUSE_SECS,
    ensures
        fetch_run(state, events) matches FetchView::Pausing { secs } ==> secs <= MAX_PAUSE_SECS,
    decreases events.len(),
{
    if events.len() > 0 {
        lemma_pauses_bounded(fetch_step(state, events.first()), events.drop_first());
    }
}

/// A lookup never pauses for more than two minutes.
pub proof fn law_pauses_are_bounded(events: Seq<FetchEvent>)
    ensures
        fetch_run(FetchView::Sending { retry_allowed: true }, events) matches FetchView::Pausing {
            secs,
        } ==> secs <= MAX_PAUSE_SECS,
{
    lemma_pauses_bounded(FetchView::Sending { retry_allowed: true }, events);
}

/// A lookup that is done stays done, with the result that it has.
pub proof fn law_a_result_is_final(result: LyricsView, events: Seq<FetchEvent>)
    ensures
        fetch_run(FetchView::Done { result }, events) == (FetchView::Done { result }),
    decreases events.len(),
{
    if events.len() > 0 {
        law_a_result_is_final(result, events.drop_first());
    }
}

/// Lyrics that a lookup finds are not blank.
pub proof fn law_found_lyrics_have_text(body: LrclibResponse)
    ensures
        lyrics_in(body) matches LyricsView::Found(lyrics) ==> !text::is_blank(lyrics),
{
}

/// Keeps requests apart. Times are nanoseconds of a clock that does not go back.
#[derive(Debug)]
pub struct RateLimiter {
    pub min_interval: u128,
    pub next_allowed: u128,
}

impl RateLimiter {
    /// Allows a request at once.
    pub fn new(min_interval: u128, now: u128) -> (r: Self)
        ensures
            r.min_interval == min_interval,
            r.next_allowed == now,
    {
        RateLimiter { min_interval, next_allowed: now }
    }

    /// How long a request must still wait at time `now`.
    pub open spec fn remaining(self, now: u128) -> u128 {
        if self.min_interval == 0 || self.next_allowed <= now {
            0
        } else {
            (self.next_allowed - now) as u128
        }
    }

    /// How long a request must still wait at time `now`.
    pub fn wait(&self, now: u128) -> (r: u128)
        ensures
            r == self.remaining(now),
    {
        if self.min_interval == 0 || self.next_allowed <= now {
            0
        } else {
            self.next_allowed - now
        }
    }

    /// The limiter after a request went out at time `now`. Without an interval it keeps no time.
    pub open spec fn after(self, now: u128) -> RateLimiter {
        if self.min_interval == 0 {
            self
        } else {
            RateLimiter {
                min_interval: self.min_interval,
                next_allowed: (now + self.min_interval) as u128,
            }
        }
    }

    /// Notes that a request goes out at time `now`, after the wait.
    pub fn note_sent(&mut self, now: u128)
        requires
            now + old(self).min_interval <= u128::MAX,
        ensures
            *final(self) == old(self).after(now),
    {
        if self.min_interval != 0 {
            self.next_allowed = now + self.min_interval;
        }
    }
}

/// The times at which requests go out follow the limiter: each was asked for at some time, waited
/// as long as it had to, and was then noted.
pub open spec fn follows(limiter: RateLimiter, asked: Seq<u128>, sent: Seq<u128>) -> bool
    decreases sent.len(),
{
    asked.len() == sent.len() && (sent.len() > 0 ==> {
        &&& sent.first() >= asked.first() + limiter.remaining(asked.first())
        &&& sent.first() + limiter.min_interval <= u128::MAX
        &&& follows(limiter.after(sent.first()), asked.drop_first(), sent.drop_first())
    })
}

/// Any two requests that follow one limiter are at least its interval apart.
pub proof fn law_requests_keep_apart(
    limiter: RateLimiter,
    asked: Seq<u128>,
    sent: Seq<u128>,
    i: int,
    j: int,
)
    requires
        follows(limiter, asked, sent),
        0 <= i < j < sent.len(),
    ensures
        limiter.min_interval > 0 ==> sent[i] + limiter.min_interval <= sent[j],
    decreases sent.len(),
{
    if limiter.min_interval > 0 {
        let next = limiter.after(sent.first());
        let rest = sent.drop_first();
        if i > 0 {
            law_requests_keep_apart(next, asked.drop_first(), rest, i - 1, j - 1);
        } else {
            lemma_sent_after(next, asked.drop_first(), rest, j - 1);
        }
    }
}

proof fn lemma_sent_after(limiter: RateLimiter, asked: Seq<u128>, sent: Seq<u128>, k: int)
    requires
        follows(limiter, asked, sent),
        limiter.min_interval > 0,
        0 <= k < sent.len(),
    ensures
        sent[k] >= limiter.next_allowed,
    decreases sent.len(),
{
    if k > 0 {
        lemma_sent_after(
            limiter.after(sent.first()),
            asked.drop_first(),
            sent.drop_first(),
            k - 1,
        );
        assert(sent.first() >= limiter.next_allowed);
    }
}

/// The settings of the client.
#[derive(Debug)]
pub struct LrclibClient {
    pub limiter: RateLimiter,
    pub request_timeout_secs: u64,
}

/// One lookup: the parameters of its requests, and where it stands.
#[derive(Debug)]
pub struct LyricsFetch {
    pub params: Vec<(String, String)>,
    pub state: FetchState,
}

impl LrclibClient {
    /// A client whose requests stay `request_interval_ms` apart, starting at time `now`.
    pub fn new(request_interval_ms: u64, request_timeout_secs: u64, now: u128) -> (r: Self)
        ensures
            r.limiter.min_interval == request_interval_ms * NANOS_PER_MILLI,
            r.limiter.next_allowed == now,
            r.request_timeout_secs == request_timeout_secs,
    {
        LrclibClient {
            limiter: RateLimiter::new(request_interval_ms as u128 * NANOS_PER_MILLI, now),
            request_timeout_secs,
        }
    }

    /// Starts the lookup of a track.
    pub fn fetch(t: &TrackTags) -> (r: LyricsFetch)
        ensures
            pair_texts(r.params@) == query_of(t@),
            r.state@ == (FetchView::Sending { retry_allowed: true }),
    {
        LyricsFetch { params: query_params(t), state: FetchState::Sending { retry_allowed: true } }
    }
}

/// A lookup asks for the track under its artist and its title as they stand, character for
/// character; for its album where it has one; and for its length in seconds where that is known.
/// It asks for nothing else.
pub proof fn law_query_is_verbatim(t: tags::TagsView)
    ensures
        query_of(t)[0] == ("artist_name"@, t.artist),
        query_of(t)[1] == ("track_name"@, t.title),
        t.album.len() > 0 ==> query_of(t).len() > 2 && query_of(t)[2] == ("album_name"@, t.album),
        t.duration_secs > 0 ==> query_of(t).len() > 2 && query_of(t).last().0 == "duration"@
            && text::number_in(query_of(t).last().1) == Some(t.duration_secs as nat),
        query_of(t).len() == 2 + (if t.album.len() > 0 {
            1int
        } else {
            0
        }) + (if t.duration_secs > 0 {
            1int
        } else {
            0
        }),
{
    text::law_number_text_reads_back(t.duration_secs as nat);
}

/// Two tracks are asked for alike exactly where artist, title, album and known length agree.
pub proof fn law_queries_tell_tracks_apart(t: tags::TagsView, u: tags::TagsView)
    requires
        query_of(t) == query_of(u),
    ensures
        t.artist == u.artist,
        t.title == u.title,
        t.album == u.album,
        t.duration_secs == u.duration_secs || (t.duration_secs <= 0 && u.duration_secs <= 0),
{
    law_query_is_verbatim(t);
    law_query_is_verbatim(u);
    reveal_strlit("album_name");
    reveal_strlit("duration");
    assert("album_name"@.len() != "duration"@.len());
    if t.album.len() == 0 {
        assert(t.album =~= Seq::<char>::empty());
    }
    if u.album.len() == 0 {
        assert(u.album =~= Seq::<char>::empty());
    }
}

/// Lyrics with text are found, the synced ones before the plain ones. Synced lyrics that are there
/// but blank hide the plain ones.
pub proof fn law_lyrics_of_an_answer(body: LrclibResponse)
    ensures
        match (body.synced_lyrics, body.plain_lyrics) {
            (Some(synced), _) => if text::is_blank(synced@) {
                lyrics_in(body) == LyricsView::NotFound
            } else {
                lyrics_in(body) == LyricsView::Found(synced@)
            },
            (None, Some(plain)) => if text::is_blank(plain@) {
                lyrics_in(body) == LyricsView::NotFound
            } else {
                lyrics_in(body) == LyricsView::Found(plain@)
            },
            (None, None) => lyrics_in(body) == LyricsView::NotFound,
        },
{
}

/// A pause lasts the seconds that the header gives, up to two minutes, and half a minute where it
/// gives no number.
pub proof fn law_pause_follows_the_header(secs: nat, header: Seq<char>)
    ensures
        secs <= 120 ==> pause_for(Some(text::decimal_text(secs))) == secs,
        120 < secs <= u64::MAX ==> pause_for(Some(text::decimal_text(secs))) == 120,
        text::number_in(header) is None || text::number_in(header)->0 > u64::MAX ==> pause_for(
            Some(header),
        ) == 30,
        pause_for(None) == 30,
{
    text::law_number_text_reads_back(secs);
}

/// An answer of status 200 gives the lyrics of its body, on the first request and on the second;
/// a failure for now where the body makes no sense.
pub proof fn law_good_answer_gives_its_lyrics(
    retry_allowed: bool,
    retry_after: Option<String>,
    body: LrclibResponse,
)
    ensures
        ({
            let start = FetchView::Sending { retry_allowed };
            let good = FetchEvent::Status { code: 200, retry_after };
            &&& fetch_run(start, seq![good, FetchEvent::Body { body: Some(body) }])
                == (FetchView::Done { result: lyrics_in(body) })
            &&& fetch_run(start, seq![good, FetchEvent::Body { body: None }]) == (FetchView::Done {
                result: LyricsView::TemporaryFailure,
            })
        }),
{
    reveal_with_fuel(fetch_run, 3);
    let start = FetchView::Sending { retry_allowed };
    let good = FetchEvent::Status { code: 200, retry_after };
    let read = seq![good, FetchEvent::Body { body: Some(body) }];
    let unread = seq![good, FetchEvent::Body { body: None }];
    assert(read.drop_first() =~= seq![FetchEvent::Body { body: Some(body) }]);
    assert(unread.drop_first() =~= seq![FetchEvent::Body { body: None }]);
    assert(read.drop_first().drop_first() =~= Seq::<FetchEvent>::empty());
    assert(unread.drop_first().drop_first() =~= Seq::<FetchEvent>::empty());
}

/// What the first answer to a request means. Status 404 says that there are no lyrics. Status 429
/// is worth one repetition, after the pause that it asks for. Any other failure is one for now.
pub proof fn law_what_a_status_means(code: u16, retry_after: Option<String>, retry_allowed: bool)
    ensures
        ({
            let start = FetchView::Sending { retry_allowed };
            let next = fetch_step(start, FetchEvent::Status { code, retry_after });
            &&& code == 404 ==> next == (FetchView::Done { result: LyricsView::NotFound })
            &&& code == 429 && retry_allowed ==> next == (FetchView::Pausing {
                secs: pause_for(text::option_text(retry_after)),
            }) && fetch_step(next, FetchEvent::Rested) == (FetchView::Sending {
                retry_allowed: false,
            })
            &&& code != 200 && code != 404 && (code != 429 || !retry_allowed) ==> next == (
            FetchView::Done { result: LyricsView::TemporaryFailure })
            &&& fetch_step(start, FetchEvent::SendFailed) == (FetchView::Done {
                result: LyricsView::TemporaryFailure,
            })
        }),
{
}

/// Lyrics are found, or known to be missing, only by an answer: lyrics by a body that holds them,
/// and their lack by a body without any or by status 404.
pub proof fn law_results_come_from_answers(state: FetchView, event: FetchEvent)
    requires
        !(state is Done),
        fetch_step(state, event) is Done,
    ensures
        fetch_step(state, event)->result is Found ==> (event matches FetchEvent::Body { body }
            && state is ReadingBody && body is Some && fetch_step(state, event)->result == lyrics_in(
            body->0,
        )),
        fetch_step(state, event)->result is NotFound ==> (event matches FetchEvent::Body {
            body,
        } && state is ReadingBody && body is Some) || (event matches FetchEvent::Status {
            code,
            ..
        } && state is Sending && code == 404),
{
}

/// After a request, the next one waits until the interval has passed, to the nanosecond, and no
/// longer. The first one does not wait, and without an interval none does.
pub proof fn law_wait_is_exact(limiter: RateLimiter, sent: u128, now: u128)
    requires
        sent + limiter.min_interval <= u128::MAX,
    ensures
        limiter.min_interval > 0 && now < sent + limiter.min_interval ==> now + limiter.after(
            sent,
        ).remaining(now) == sent + limiter.min_interval,
        now >= sent + limiter.min_interval ==> limiter.min_interval > 0 ==> limiter.after(
            sent,
        ).remaining(now) == 0,
        limiter.min_interval == 0 ==> limiter.after(sent).remaining(now) == 0,
        limiter.next_allowed <= now ==> limiter.remaining(now) == 0,
        limiter.after(sent).min_interval == limiter.min_interval,
{
}

} // verus!
