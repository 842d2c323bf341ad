//! The transfer agent: control-connection protocol state machine, line
//! framing, offer dispatch, and per-file transfer accounting.
use vstd::prelude::*;

pub mod irc;

verus! {

/// How a session or a single transfer fails.  Connection failures are
/// distinguished from generic I/O failures; a file-creation failure
/// carries the target path and the underlying cause; a malformed offer
/// line is unrecoverable and carries the line.
#[derive(Debug, Clone, PartialEq, Eq)]
pub enum Error {
    Io(String),
    Connection(String),
    FileCreation(String, String),
    Offer(String),
}

impl Error {
    /// A short human-readable description.
    pub fn describe(&self) -> (r: String)
        ensures
            match *self {
                Error::Io(_) => r@ == "IO error"@,
                Error::Connection(_) => r@ == "Connection error"@,
                Error::FileCreation(_, _) => r@ == "Couldn't create file"@,
                Error::Offer(_) => r@ == "Malformed DCC SEND offer"@,
            },
    {
        match self {
            Error::Io(_) => "IO error".to_owned(),
            Error::Connection(_) => "Connection error".to_owned(),
            Error::FileCreation(_, _) => "Couldn't create file".to_owned(),
            Error::Offer(_) => "Malformed DCC SEND offer".to_owned(),
        }
    }
}

// ---------------------------------------------------------------------------
// Line framer
// ---------------------------------------------------------------------------
/// Turns a raw text stream into discrete protocol lines: text is pushed
/// in arbitrary chunks, and complete lines (terminator included) come
/// out one at a time, the remainder staying buffered.
pub struct LineBuffer {
    buf: String,
}

impl View for LineBuffer {
    type V = Seq<char>;

    closed spec fn view(&self) -> Seq<char> {
        self.buf@
    }
}

impl LineBuffer {
    pub fn new() -> (r: Self)
        ensures
            r@ == Seq::<char>::empty(),
    {
        LineBuffer { buf: String::new() }
    }

    /// Append a decoded chunk of incoming text.
    pub fn push_text(&mut self, chunk: &str)
        ensures
            final(self)@ == old(self)@ + chunk@,
    {
        self.buf.append(chunk);
    }

    /// Take the first complete line off the buffer, terminator
    /// included, or nothing when no newline has arrived yet.
    pub fn take_line(&mut self) -> (r: Option<String>)
        ensures
            match r {
                Some(line) => {
                    let i = crate::text::find_ch(old(self)@, '\n');
                    &&& i >= 0
                    &&& line@ == old(self)@.take(i + 1)
                    &&& final(self)@ == old(self)@.skip(i + 1)
                },
                None => crate::text::find_ch(old(self)@, '\n') == -1 && final(self)@ == old(
                    self,
                )@,
            },
    {
        let n = self.buf.unicode_len();
        match crate::text::find_char(self.buf.as_str(), '\n') {
            Some(i) => {
                proof {
                    crate::text::lemma_find_ch(self.buf@, '\n');
                }
                let line = self.buf.as_str().substring_char(0, i + 1).to_owned();
                let rest = self.buf.as_str().substring_char(i + 1, n).to_owned();
                proof {
                    assert(line@ =~= self.buf@.take(i + 1));
                    assert(rest@ =~= self.buf@.skip(i + 1));
                }
                self.buf = rest;
                Some(line)
            },
            None => None,
        }
    }
}

// ---------------------------------------------------------------------------
// Protocol state machine
// ---------------------------------------------------------------------------
/// The control-loop state: whether JOIN was sent, whether the package
/// requests were sent, and how many offers have been handled.
pub struct SessionState {
    pub joined: bool,
    pub requested: bool,
    pub handled: usize,
}

/// The mathematical view of the control-loop state.
pub struct SessionModel {
    pub joined: bool,
    pub requested: bool,
    pub handled: int,
}

impl View for SessionState {
    type V = SessionModel;

    open spec fn view(&self) -> SessionModel {
        SessionModel { joined: self.joined, requested: self.requested, handled: self.handled as int }
    }
}

impl SessionModel {
    /// The session is finished once one worker exists per package.
    pub open spec fn done(self, total: int) -> bool {
        self.handled >= total
    }
}

/// How one incoming line changes the state: a keepalive marks the
/// channel joined, a join-acknowledgment marks the requests sent, an
/// offer line counts one more handled offer.  The patterns are checked
/// independently, not mutually exclusively.
pub open spec fn step_model(m: SessionModel, line: Seq<char>) -> SessionModel {
    SessionModel {
        joined: m.joined || crate::downloader::irc::is_ping(line),
        requested: m.requested || crate::downloader::irc::is_join_ack(line),
        handled: m.handled + if crate::downloader::irc::has_offer(line) {
            1int
        } else {
            0int
        },
    }
}

/// The package-request lines, one per package in order.
pub open spec fn request_lines_text(bot: Seq<char>, packages: Seq<Seq<char>>) -> Seq<Seq<char>> {
    Seq::new(packages.len(), |i: int| crate::downloader::irc::request_line_text(bot, packages[i]))
}

/// The control lines written in reply to one incoming line: the PONG
/// (and, the first time, the JOIN) for a keepalive, then the package
/// requests on the first join-acknowledgment.
pub open spec fn step_replies(
    m: SessionModel,
    channel: Seq<char>,
    bot: Seq<char>,
    packages: Seq<Seq<char>>,
    line: Seq<char>,
) -> Seq<Seq<char>> {
    let pongs = if crate::downloader::irc::is_ping(line) {
        if !m.joined {
            seq![
                crate::downloader::irc::pong_of(line),
                crate::downloader::irc::join_line_text(channel),
            ]
        } else {
            seq![crate::downloader::irc::pong_of(line)]
        }
    } else {
        Seq::<Seq<char>>::empty()
    };
    let reqs = if crate::downloader::irc::is_join_ack(line) && !m.requested {
        request_lines_text(bot, packages)
    } else {
        Seq::<Seq<char>>::empty()
    };
    pongs + reqs
}

/// What the state machine decides for one line.
pub struct Step {
    pub replies: Vec<String>,
    pub offer: Option<crate::downloader::irc::DCCSend>,
}

impl SessionState {
    pub fn new() -> (r: Self)
        ensures
            !r.joined,
            !r.requested,
            r.handled == 0,
    {
        SessionState { joined: false, requested: false, handled: 0 }
    }

    /// Whether the control loop may stop reading.
    pub fn is_done(&self, total: usize) -> (r: bool)
        ensures
            r == self@.done(total as int),
    {
        self.handled >= total
    }

    /// Consume one framed control line: decide the replies to send, the
    /// worker to spawn, and the next state.  A line that announces an
    /// offer but breaks the offer grammar is an unrecoverable error and
    /// leaves the state unchanged.
    pub fn handle_line(&mut self, req: &crate::downloader::irc::Request, line: &str) -> (r: Result<
        Step,
        Error,
    >)
        requires
            old(self).handled < usize::MAX,
        ensures
            match r {
                Ok(step) => {
                    &&& final(self)@ == step_model(old(self)@, line@)
                    &&& step.replies.deep_view() == step_replies(
                        old(self)@,
                        req.config.channel@,
                        req.bot@,
                        req.packages.deep_view(),
                        line@,
                    )
                    &&& match step.offer {
                        Some(d) => crate::downloader::irc::has_offer(line@)
                            && crate::downloader::irc::parse_offer(line@) == Some(d@),
                        None => !crate::downloader::irc::has_offer(line@),
                    }
                },
                Err(e) => {
                    &&& crate::downloader::irc::has_offer(line@)
                    &&& crate::downloader::irc::parse_offer(line@) is None
                    &&& *final(self) == *old(self)
                    &&& e matches Error::Offer(l) && l@ == line@
                },
            },
    {
        let offer: Option<crate::downloader::irc::DCCSend> = if crate::text::contains_substr(
            line,
            "DCC SEND ",
        ) {
            match crate::downloader::irc::parse_dcc_send(line) {
                Some(d) => Some(d),
                None => {
                    return Err(Error::Offer(line.to_owned()));
                },
            }
        } else {
            None
        };
        let ghost m0 = self@;
        let mut replies: Vec<String> = Vec::new();
        if crate::downloader::irc::is_ping_line(line) {
            replies.push(crate::downloader::irc::pong_for(line));
            if !self.joined {
                replies.push(crate::downloader::irc::join_line(req.config.channel.as_str()));
                self.joined = true;
            }
        }
        let ghost pongs_done = replies.deep_view();
        if crate::downloader::irc::is_join_ack_line(line) {
            if !self.requested {
                let mut k: usize = 0;
                while k < req.packages.len()
                    invariant
                        k <= req.packages@.len(),
                        replies.deep_view() =~= pongs_done + request_lines_text(
                            req.bot@,
                            req.packages.deep_view(),
                        ).take(k as int),
                    decreases req.packages@.len() - k,
                {
                    let ghost prev = replies.deep_view();
                    let next = crate::downloader::irc::request_line(
                        req.bot.as_str(),
                        req.packages[k].as_str(),
                    );
                    replies.push(next);
                    proof {
                        let all = request_lines_text(req.bot@, req.packages.deep_view());
                        assert(req.packages.deep_view()[k as int] == req.packages@[k as int]@);
                        assert(replies.deep_view() =~= prev.push(next@));
                        assert(all.take(k + 1) =~= all.take(k as int).push(all[k as int]));
                        assert(replies.deep_view() =~= pongs_done + all.take(k + 1));
                    }
                    k += 1;
                }
                self.requested = true;
                proof {
                    let all = request_lines_text(req.bot@, req.packages.deep_view());
                    assert(all.take(req.packages@.len() as int) =~= all);
                }
            }
        }
        if offer.is_some() {
            self.handled = self.handled + 1;
        }
        proof {
            assert(replies.deep_view() =~= step_replies(
                m0,
                req.config.channel@,
                req.bot@,
                req.packages.deep_view(),
                line@,
            ));
        }
        Ok(Step { replies, offer })
    }
}

// ---------------------------------------------------------------------------
// Session laws
// ---------------------------------------------------------------------------
/// The state after consuming `lines` in order, stopping as soon as the
/// session is done.
pub open spec fn run_model(m: SessionModel, lines: Seq<Seq<char>>, total: int) -> SessionModel
    decreases lines.len(),
{
    if lines.len() == 0 || m.done(total) {
        m
    } else {
        run_model(step_model(m, lines[0]), lines.drop_first(), total)
    }
}

/// How many JOIN commands the run emits.
pub open spec fn joins_of(m: SessionModel, lines: Seq<Seq<char>>, total: int) -> int
    decreases lines.len(),
{
    if lines.len() == 0 || m.done(total) {
        0
    } else {
        (if crate::downloader::irc::is_ping(lines[0]) && !m.joined {
            1int
        } else {
            0int
        }) + joins_of(step_model(m, lines[0]), lines.drop_first(), total)
    }
}

/// How many of the lines carry an offer.
pub open spec fn offers_of(lines: Seq<Seq<char>>) -> int
    decreases lines.len(),
{
    if lines.len() == 0 {
        0
    } else {
        (if crate::downloader::irc::has_offer(lines[0]) {
            1int
        } else {
            0int
        }) + offers_of(lines.drop_first())
    }
}

/// JOIN is sent exactly once per session: never again once the channel
/// is joined, at most once overall, and exactly once as soon as any
/// keepalive is answered — however many keepalives precede the first
/// join-acknowledgment.
pub proof fn lemma_join_sent_once(m: SessionModel, lines: Seq<Seq<char>>, total: int)
    ensures
        m.joined ==> joins_of(m, lines, total) == 0,
        joins_of(m, lines, total) <= 1,
        !m.joined && !m.done(total) && lines.len() > 0 && crate::downloader::irc::is_ping(lines[0])
            ==> joins_of(m, lines, total) == 1,
        m.joined ==> run_model(m, lines, total).joined,
        !m.joined ==> (joins_of(m, lines, total) == 1 <==> run_model(m, lines, total).joined),
    decreases lines.len(),
{
    if lines.len() == 0 || m.done(total) {
    } else {
        lemma_join_sent_once(step_model(m, lines[0]), lines.drop_first(), total);
    }
}

/// A session requesting `total` packages spawns exactly one worker per
/// offer until the count is reached, and the loop stops right there:
/// the final count is the requested count capped by the offers seen,
/// and a finished session consumes nothing further.
pub proof fn lemma_session_termination(m: SessionModel, lines: Seq<Seq<char>>, total: int)
    requires
        0 <= m.handled <= total,
    ensures
        run_model(m, lines, total).handled == if m.handled + offers_of(lines) <= total {
            m.handled + offers_of(lines)
        } else {
            total
        },
        run_model(m, lines, total).handled <= total,
        m.done(total) ==> run_model(m, lines, total) == m,
    decreases lines.len(),
{
    if lines.len() == 0 || m.done(total) {
        if lines.len() > 0 {
            lemma_offers_nonneg(lines);
        }
    } else {
        lemma_session_termination(step_model(m, lines[0]), lines.drop_first(), total);
    }
}

/// Offer counts are never negative.
proof fn lemma_offers_nonneg(lines: Seq<Seq<char>>)
    ensures
        offers_of(lines) >= 0,
    decreases lines.len(),
{
    if lines.len() > 0 {
        lemma_offers_nonneg(lines.drop_first());
    }
}

// ---------------------------------------------------------------------------
// Transfer accounting
// ---------------------------------------------------------------------------
/// Byte accounting for one transfer worker: every chunk read from the
/// data connection is written to the file, and the worker is complete
/// exactly when the received total reaches the declared size.
pub struct Transfer {
    pub received: usize,
    pub size: usize,
}

impl Transfer {
    /// The worker may report completion.
    pub open spec fn complete(self) -> bool {
        self.received >= self.size
    }

    pub fn new(size: usize) -> (r: Self)
        ensures
            r.received == 0,
            r.size == size,
    {
        Transfer { received: 0, size }
    }

    /// Account for one chunk read from the data connection and written
    /// to the file; reports whether the transfer is now complete.
    pub fn apply_chunk(&mut self, count: usize) -> (done: bool)
        requires
            old(self).received < old(self).size,
            count <= usize::MAX - old(self).received,
        ensures
            final(self).received == old(self).received + count,
            final(self).size == old(self).size,
            done == final(self).complete(),
    {
        self.received = self.received + count;
        self.received >= self.size
    }

    pub fn is_complete(&self) -> (r: bool)
        ensures
            r == self.complete(),
    {
        self.received >= self.size
    }
}

/// The received total after the worker's read loop consumes `chunks`,
/// stopping once the declared size is reached.
pub open spec fn run_chunks(received: int, size: int, chunks: Seq<usize>) -> int
    decreases chunks.len(),
{
    if chunks.len() == 0 || received >= size {
        received
    } else {
        run_chunks(received + chunks[0], size, chunks.drop_first())
    }
}

/// Total bytes in a sequence of chunks.
pub open spec fn sum_chunks(chunks: Seq<usize>) -> int
    decreases chunks.len(),
{
    if chunks.len() == 0 {
        0
    } else {
        chunks[0] + sum_chunks(chunks.drop_first())
    }
}

/// Chunk totals are never negative.
proof fn lemma_sum_nonneg(chunks: Seq<usize>)
    ensures
        sum_chunks(chunks) >= 0,
    decreases chunks.len(),
{
    if chunks.len() > 0 {
        lemma_sum_nonneg(chunks.drop_first());
    }
}

/// A worker whose data connection delivers exactly `size` bytes writes
/// exactly `size` bytes and completes; one that receives fewer bytes
/// never reports completion.
pub proof fn lemma_worker_completion(received: int, size: int, chunks: Seq<usize>)
    requires
        0 <= received <= size,
    ensures
        received + sum_chunks(chunks) == size ==> run_chunks(received, size, chunks) == size,
        received + sum_chunks(chunks) < size ==> run_chunks(received, size, chunks) == received
            + sum_chunks(chunks) && run_chunks(received, size, chunks) < size,
    decreases chunks.len(),
{
    if chunks.len() == 0 || received >= size {
        if chunks.len() > 0 {
            lemma_sum_nonneg(chunks);
        }
    } else {
        lemma_sum_nonneg(chunks.drop_first());
        if received + chunks[0] as int <= size {
            lemma_worker_completion(received + chunks[0], size, chunks.drop_first());
        }
    }
}

// ---------------------------------------------------------------------------
// Progress arithmetic
// ---------------------------------------------------------------------------
/// Seconds left at the current pace: `elapsed * (len - pos) / pos`,
/// saturated to `u64`; undefined while nothing has arrived.
pub fn eta_seconds(elapsed: u64, pos: u64, len: u64) -> (r: Option<u64>)
    ensures
        match r {
            None => pos == 0,
            Some(v) => {
                &&& pos > 0
                &&& {
                    let rem: int = if len >= pos {
                        len - pos
                    } else {
                        0
                    };
                    let exact: int = elapsed * rem / (pos as int);
                    v as int == if exact <= u64::MAX {
                        exact
                    } else {
                        u64::MAX as int
                    }
                }
            },
        },
{
    if pos == 0 {
        return None;
    }
    let rem: u64 = if len >= pos {
        len - pos
    } else {
        0
    };
    proof {
        assert((elapsed as int) * (rem as int) < 0x1_0000_0000_0000_0000_0000_0000_0000_0000int)
            by (nonlinear_arith)
            requires
                elapsed <= 0xffff_ffff_ffff_ffffu64,
                rem <= 0xffff_ffff_ffff_ffffu64,
        ;
    }
    let wide: u128 = (elapsed as u128) * (rem as u128) / (pos as u128);
    if wide <= 0xffff_ffff_ffff_ffff {
        Some(wide as u64)
    } else {
        Some(0xffff_ffff_ffff_ffff)
    }
}

// ---------------------------------------------------------------------------
// Entry point
// ---------------------------------------------------------------------------
/// Prepare the session request for one chosen catalog entry: the bot to
/// ask, the single package to request, and the destination directory.
pub fn download(
    entry: &crate::finder::Entry,
    config: irc::Config,
    directory: String,
) -> (r: irc::Request)
    ensures
        r.config == config,
        r.bot@ == entry.bot_name@,
        r.packages.deep_view() == seq![
            crate::digits::signed_dec_chars(entry.package_number as int),
        ],
        r.directory@ == directory@,
{
    let mut pkg = String::new();
    crate::digits::push_dec_i32(&mut pkg, entry.package_number);
    let mut packages: Vec<String> = Vec::new();
    packages.push(pkg);
    proof {
        assert(packages.deep_view() =~= seq![
            crate::digits::signed_dec_chars(entry.package_number as int),
        ]);
    }
    irc::Request { config, bot: entry.bot_name.clone(), packages, directory }
}

} // verus!
