//! Build-log lines: reading them from the log file, and the state kept by
//! the log watcher and the terminal view.
use vstd::prelude::*;
use crate::text::{
    chars_of, decode_lossy, lemma_split_on_nonempty, lemma_split_on_pieces_lack_separator, lossy_utf8, push_char, push_str,
    split_bounds, split_on, string_of,
};

verus! {

/// Lines the watcher and the terminal keep.
pub const MAX_LOG_LINES: usize = 600;

/// Bytes read from the end of the log when reading it for the first time.
pub const MAX_INITIAL_READ_BYTES: u64 = 524288;

/// Shortest pause of the log watcher between reads, in milliseconds.
pub const LOG_WATCH_MIN_MS: u64 = 900;

/// Longest pause of the log watcher between reads, in milliseconds.
pub const LOG_WATCH_MAX_MS: u64 = 5000;

/// Pause of the terminal between polls while output arrives, in milliseconds.
pub const LOG_REFRESH_MS: u32 = 1000;

/// Longest pause of the terminal between polls, in milliseconds.
pub const LOG_IDLE_REFRESH_MAX_MS: u32 = 5000;

/// Added to a pause after a poll that brought nothing, in milliseconds.
pub const BACKOFF_STEP_MS: u32 = 500;

/// One line of build output: its raw text and its HTML rendering.
pub struct LogLine {
    pub raw: String,
    pub html: String,
}

/// Log lines sent to the browser: the whole retained log (`replace`) or
/// lines newly read, with the file offset reached.
pub struct LogStreamPayload {
    pub replace: bool,
    pub lines: Vec<LogLine>,
    pub offset: u64,
    pub epoch_seconds: Option<u64>,
}

/// The terminal state a leading browser tab shares with the others.
pub struct SharedLogPayload {
    pub seq: u64,
    pub lines: Vec<LogLine>,
    pub offset: u64,
    pub epoch_seconds: Option<u64>,
}

/// The last `n` entries of `s` (all of them where it holds fewer).
pub open spec fn keep_last<T>(s: Seq<T>, n: nat) -> Seq<T> {
    if s.len() <= n {
        s
    } else {
        s.subrange(s.len() - n, s.len() as int)
    }
}

/// `c` as HTML text.
pub open spec fn escape_char(c: char) -> Seq<char> {
    if c == '&' {
        "&amp;"@
    } else if c == '<' {
        "&lt;"@
    } else if c == '>' {
        "&gt;"@
    } else {
        seq![c]
    }
}

/// `s` with `&`, `<` and `>` written as HTML entities.
pub open spec fn escaped(s: Seq<char>) -> Seq<char>
    decreases s.len(),
{
    if s.len() == 0 {
        Seq::empty()
    } else {
        escaped(s.drop_last()) + escape_char(s.last())
    }
}

/// What `ansi_to_html::convert` makes of `input`, `None` where it fails.
pub uninterp spec fn ansi_html(input: Seq<char>) -> Option<Seq<char>>;

/// Declares `ansi_to_html::Error`, held as an opaque value.
#[verifier::external_type_specification]
#[verifier::external_body]
pub struct ExAnsiError(ansi_to_html::Error);

/// Calls `ansi_to_html::convert`, which renders the ANSI styling of `input`
/// as HTML. Its result is a function of `input` alone, named `ansi_html`;
/// nothing more is stated of it.
#[verifier::external_body]
fn ansi_convert(input: &str) -> (r: Result<String, ansi_to_html::Error>)
    ensures
        match r {
            Ok(h) => ansi_html(input@) == Some(h@),
            Err(_) => ansi_html(input@) is None,
        },
{
    ansi_to_html::convert(input)
}

/// The HTML shown for log text `s`: its ANSI rendering, or the escaped text
/// where that fails.
pub open spec fn line_html(s: Seq<char>) -> Seq<char> {
    match ansi_html(s) {
        Some(h) => h,
        None => escaped(s),
    }
}

/// `s` without its trailing carriage returns.
pub open spec fn strip_crs(s: Seq<char>) -> Seq<char>
    decreases s.len(),
{
    if s.len() > 0 && s.last() == '\r' {
        strip_crs(s.drop_last())
    } else {
        s
    }
}

/// The non-empty pieces among `pieces`, trailing carriage returns dropped.
pub open spec fn kept_pieces(pieces: Seq<Seq<char>>) -> Seq<Seq<char>>
    decreases pieces.len(),
{
    if pieces.len() == 0 {
        Seq::empty()
    } else {
        let rest = kept_pieces(pieces.drop_last());
        let c = strip_crs(pieces.last());
        if c.len() == 0 {
            rest
        } else {
            rest.push(c)
        }
    }
}

/// The log lines held in `text`: its `\n`-separated pieces without trailing
/// carriage returns, empty ones dropped.
pub open spec fn log_texts(text: Seq<char>) -> Seq<Seq<char>> {
    kept_pieces(split_on(text, '\n'))
}

/// `lines` are the log lines of `texts`, each with its HTML.
pub open spec fn lines_of(lines: Seq<LogLine>, texts: Seq<Seq<char>>) -> bool {
    &&& lines.len() == texts.len()
    &&& forall|k: int|
        0 <= k < lines.len() ==> #[trigger] lines[k].raw@ == texts[k] && lines[k].html@
            == line_html(texts[k])
}

/// The text of `lines`.
pub open spec fn raw_texts(lines: Seq<LogLine>) -> Seq<Seq<char>> {
    lines.map_values(|l: LogLine| l.raw@)
}

/// `s` with `&`, `<` and `>` written as HTML entities.
pub fn escape_html(input: &str) -> (r: String)
    ensures
        r@ == escaped(input@),
{
    let v = chars_of(input);
    let mut r = String::new();
    let mut i: usize = 0;
    assert(v@.take(0) =~= Seq::<char>::empty());
    while i < v.len()
        invariant
            i <= v@.len(),
            v@ == input@,
            r@ == escaped(v@.take(i as int)),
        decreases v.len() - i,
    {
        let c = v[i];
        if c == '&' {
            push_str(&mut r, "&amp;");
        } else if c == '<' {
            push_str(&mut r, "&lt;");
        } else if c == '>' {
            push_str(&mut r, "&gt;");
        } else {
            push_char(&mut r, c);
        }
        assert(v@.take(i + 1).drop_last() =~= v@.take(i as int));
        i = i + 1;
    }
    assert(v@.take(v@.len() as int) =~= v@);
    r
}

/// The HTML shown for log text `clean`.
pub fn render_line(clean: &str) -> (r: String)
    ensures
        r@ == line_html(clean@),
{
    match ansi_convert(clean) {
        Ok(h) => h,
        Err(_) => escape_html(clean),
    }
}

/// A copy of `l`.
pub fn copy_line(l: &LogLine) -> (r: LogLine)
    ensures
        r == *l,
{
    LogLine { raw: l.raw.clone(), html: l.html.clone() }
}

/// The log lines held in `text`, each with its HTML.
pub fn parse_log_text(text: &str) -> (r: Vec<LogLine>)
    ensures
        lines_of(r@, log_texts(text@)),
{
    let v = chars_of(text);
    let b = split_bounds(&v, '\n');
    let ghost p = split_on(v@, '\n');
    let mut r: Vec<LogLine> = Vec::new();
    let mut k: usize = 0;
    assert(p.take(0) =~= Seq::<Seq<char>>::empty());
    while k < b.len()
        invariant
            k <= b@.len() == p.len(),
            v@ == text@,
            p == split_on(v@, '\n'),
            forall|j: int|
                #![trigger b@[j]]
                0 <= j < b@.len() ==> {
                    &&& b@[j].0 <= b@[j].1 <= v@.len()
                    &&& v@.subrange(b@[j].0 as int, b@[j].1 as int) == p[j]
                },
            lines_of(r@, kept_pieces(p.take(k as int))),
        decreases b.len() - k,
    {
        let (a, e) = b[k];
        let ghost piece = p[k as int];
        let mut t: usize = e;
        while t > a && v[t - 1] == '\r'
            invariant
                a <= t <= e <= v@.len(),
                piece == v@.subrange(a as int, e as int),
                strip_crs(piece) == strip_crs(v@.subrange(a as int, t as int)),
            decreases t,
        {
            assert(v@.subrange(a as int, t - 1) =~= v@.subrange(a as int, t as int).drop_last());
            t = t - 1;
        }
        assert(strip_crs(v@.subrange(a as int, t as int)) == v@.subrange(a as int, t as int));
        assert(p.take(k + 1).drop_last() =~= p.take(k as int));
        assert(p.take(k + 1).last() == piece);
        let ghost before = r@;
        if t > a {
            let raw = string_of(&v, a, t);
            let html = render_line(raw.as_str());
            r.push(LogLine { raw, html });
            assert forall|j: int| 0 <= j < r@.len() implies #[trigger] r@[j].raw@ == kept_pieces(
                p.take(k + 1),
            )[j] && r@[j].html@ == line_html(kept_pieces(p.take(k + 1))[j]) by {
                if j < before.len() {
                    assert(r@[j] == before[j]);
                }
            }
        }
        k = k + 1;
    }
    assert(p.take(b@.len() as int) =~= p);
    r
}

/// The log lines held in `raw`, decoded as lossy UTF-8.
pub fn parse_log_bytes(raw: &[u8]) -> (r: Vec<LogLine>)
    ensures
        lines_of(r@, log_texts(lossy_utf8(raw@))),
        vstd::utf8::valid_utf8(raw@) ==> lines_of(r@, log_texts(vstd::utf8::decode_utf8(raw@))),
{
    let text = decode_lossy(raw);
    parse_log_text(text.as_str())
}

/// Where to read a log of `file_len` bytes for a reader that reached
/// `offset`: the tail on a first read, the start again where the log shrank.
pub open spec fn seek_position(offset: u64, file_len: u64) -> u64 {
    if offset == 0 && file_len > MAX_INITIAL_READ_BYTES {
        (file_len - MAX_INITIAL_READ_BYTES) as u64
    } else if offset > file_len {
        0
    } else {
        offset
    }
}

/// Where to read a log of `file_len` bytes for a reader that reached `offset`.
pub fn log_seek_position(offset: u64, file_len: u64) -> (pos: u64)
    ensures
        pos == seek_position(offset, file_len),
        pos <= file_len,
{
    if offset == 0 && file_len > MAX_INITIAL_READ_BYTES {
        file_len - MAX_INITIAL_READ_BYTES
    } else if offset > file_len {
        0
    } else {
        offset
    }
}

/// The lines in `raw`, read from position `seek_pos`, and the offset reached.
pub fn log_chunk(seek_pos: u64, raw: &[u8]) -> (r: (Vec<LogLine>, u64))
    requires
        seek_pos + raw@.len() <= u64::MAX,
    ensures
        lines_of(r.0@, log_texts(lossy_utf8(raw@))),
        vstd::utf8::valid_utf8(raw@) ==> lines_of(r.0@, log_texts(vstd::utf8::decode_utf8(raw@))),
        r.1 == seek_pos + raw@.len(),
{
    let n: usize = raw.len();
    let lines = parse_log_bytes(raw);
    (lines, seek_pos + n as u64)
}

/// Copies of `lines[from..]`.
fn copy_from(lines: &Vec<LogLine>, from: usize) -> (r: Vec<LogLine>)
    requires
        from <= lines@.len(),
    ensures
        r@ == lines@.subrange(from as int, lines@.len() as int),
{
    let mut r: Vec<LogLine> = Vec::new();
    let mut i: usize = from;
    while i < lines.len()
        invariant
            from <= i <= lines@.len(),
            r@ == lines@.subrange(from as int, i as int),
        decreases lines.len() - i,
    {
        r.push(copy_line(&lines[i]));
        i = i + 1;
        assert(r@ =~= lines@.subrange(from as int, i as int));
    }
    r
}

/// Copies of all of `lines`.
pub fn copy_lines(lines: &Vec<LogLine>) -> (r: Vec<LogLine>)
    ensures
        r@ == lines@,
{
    let r = copy_from(lines, 0);
    assert(lines@.subrange(0, lines@.len() as int) =~= lines@);
    r
}

/// Appends `new` to `lines`, keeping only the last `MAX_LOG_LINES`.
pub fn append_capped(lines: &mut Vec<LogLine>, new: &Vec<LogLine>)
    ensures
        final(lines)@ == keep_last(old(lines)@ + new@, MAX_LOG_LINES as nat),
{
    let mut i: usize = 0;
    while i < new.len()
        invariant
            i <= new@.len(),
            lines@ == old(lines)@ + new@.subrange(0, i as int),
        decreases new.len() - i,
    {
        lines.push(copy_line(&new[i]));
        i = i + 1;
        assert(lines@ =~= old(lines)@ + new@.subrange(0, i as int));
    }
    assert(new@.subrange(0, new@.len() as int) =~= new@);
    if lines.len() > MAX_LOG_LINES {
        let drop_len: usize = lines.len() - MAX_LOG_LINES;
        let kept = copy_from(lines, drop_len);
        *lines = kept;
    }
}

/// Next pause of the log watcher: back to the shortest after new output,
/// otherwise longer by `BACKOFF_STEP_MS` up to the longest.
pub open spec fn next_watch_wait(wait_ms: u64, got_lines: bool) -> u64 {
    if got_lines {
        LOG_WATCH_MIN_MS
    } else if wait_ms + BACKOFF_STEP_MS < LOG_WATCH_MAX_MS {
        (wait_ms + BACKOFF_STEP_MS) as u64
    } else {
        LOG_WATCH_MAX_MS
    }
}

/// Server-side log state: the retained lines, the offset read up to, the
/// time of the latest output and the pause before the next read.
pub struct LogWatcher {
    pub log_lines: Vec<LogLine>,
    pub log_offset: u64,
    pub last_build_epoch: Option<u64>,
    pub wait_ms: u64,
}

impl LogWatcher {
    /// At most `MAX_LOG_LINES` lines are retained and the pause stays
    /// between the shortest and the longest.
    pub open spec fn wf(&self) -> bool {
        &&& self.log_lines@.len() <= MAX_LOG_LINES
        &&& LOG_WATCH_MIN_MS <= self.wait_ms <= LOG_WATCH_MAX_MS
    }

    /// Nothing read yet.
    pub fn new() -> (w: Self)
        ensures
            w.wf(),
            w.log_lines@.len() == 0,
            w.log_offset == 0,
            w.last_build_epoch is None,
            w.wait_ms == LOG_WATCH_MIN_MS,
    {
        LogWatcher {
            log_lines: Vec::new(),
            log_offset: 0,
            last_build_epoch: None,
            wait_ms: LOG_WATCH_MIN_MS,
        }
    }

    /// Takes the outcome of one read at time `now` (`None` where reading
    /// failed) and gives the lines to send to the browsers, if any were read.
    pub fn on_chunk(&mut self, chunk: Option<(Vec<LogLine>, u64)>, now: u64) -> (sent: Option<
        LogStreamPayload,
    >)
        requires
            old(self).wf(),
        ensures
            final(self).wf(),
            match chunk {
                Some((new_lines, new_offset)) => {
                    &&& final(self).log_offset == new_offset
                    &&& final(self).wait_ms == next_watch_wait(
                        old(self).wait_ms,
                        new_lines@.len() > 0,
                    )
                    &&& if new_lines@.len() == 0 {
                        &&& sent is None
                        &&& final(self).log_lines@ == old(self).log_lines@
                        &&& final(self).last_build_epoch == old(self).last_build_epoch
                    } else {
                        &&& final(self).last_build_epoch == Some(now)
                        &&& final(self).log_lines@ == keep_last(
                            old(self).log_lines@ + new_lines@,
                            MAX_LOG_LINES as nat,
                        )
                        &&& sent matches Some(p) && !p.replace && p.lines@ == new_lines@
                            && p.offset == new_offset && p.epoch_seconds == Some(now)
                    }
                },
                None => {
                    &&& sent is None
                    &&& final(self).wait_ms == next_watch_wait(old(self).wait_ms, false)
                    &&& final(self).log_lines@ == old(self).log_lines@
                    &&& final(self).log_offset == old(self).log_offset
                    &&& final(self).last_build_epoch == old(self).last_build_epoch
                },
            },
    {
        match chunk {
            Some((new_lines, new_offset)) => {
                self.log_offset = new_offset;
                if new_lines.len() == 0 {
                    self.wait_ms = if self.wait_ms + 500 < LOG_WATCH_MAX_MS {
                        self.wait_ms + 500
                    } else {
                        LOG_WATCH_MAX_MS
                    };
                    None
                } else {
                    self.wait_ms = LOG_WATCH_MIN_MS;
                    self.last_build_epoch = Some(now);
                    append_capped(&mut self.log_lines, &new_lines);
                    Some(
                        LogStreamPayload {
                            replace: false,
                            lines: new_lines,
                            offset: new_offset,
                            epoch_seconds: Some(now),
                        },
                    )
                }
            },
            None => {
                self.wait_ms = if self.wait_ms + 500 < LOG_WATCH_MAX_MS {
                    self.wait_ms + 500
                } else {
                    LOG_WATCH_MAX_MS
                };
                None
            },
        }
    }

    /// All retained lines, for a browser that just connected or fell behind.
    pub fn snapshot(&self) -> (p: LogStreamPayload)
        ensures
            p.replace,
            p.lines@ == self.log_lines@,
            p.offset == self.log_offset,
            p.epoch_seconds == self.last_build_epoch,
    {
        LogStreamPayload {
            replace: true,
            lines: copy_lines(&self.log_lines),
            offset: self.log_offset,
            epoch_seconds: self.last_build_epoch,
        }
    }
}

/// Next pause of the terminal between polls.
pub open spec fn next_poll_delay(delay_ms: u32, got_lines: bool) -> u32 {
    if got_lines {
        LOG_REFRESH_MS
    } else if delay_ms + BACKOFF_STEP_MS < LOG_IDLE_REFRESH_MAX_MS {
        (delay_ms + BACKOFF_STEP_MS) as u32
    } else {
        LOG_IDLE_REFRESH_MAX_MS
    }
}

fn backoff(delay_ms: u32) -> (r: u32)
    requires
        delay_ms <= LOG_IDLE_REFRESH_MAX_MS,
    ensures
        r == next_poll_delay(delay_ms, false),
{
    if delay_ms + 500 < LOG_IDLE_REFRESH_MAX_MS {
        delay_ms + 500
    } else {
        LOG_IDLE_REFRESH_MAX_MS
    }
}

/// The log as the browser's terminal shows it.
pub struct TerminalFeed {
    pub lines: Vec<LogLine>,
    pub offset: u64,
    pub connected: bool,
    pub last_build_epoch: Option<u64>,
    pub poll_delay_ms: u32,
}

impl TerminalFeed {
    /// The poll pause stays between the shortest and the longest.
    pub open spec fn wf(&self) -> bool {
        LOG_REFRESH_MS <= self.poll_delay_ms <= LOG_IDLE_REFRESH_MAX_MS
    }

    /// An empty, unconnected terminal.
    pub fn new() -> (t: Self)
        ensures
            t.wf(),
            t.lines@.len() == 0,
            t.offset == 0,
            !t.connected,
            t.last_build_epoch is None,
            t.poll_delay_ms == LOG_REFRESH_MS,
    {
        TerminalFeed {
            lines: Vec::new(),
            offset: 0,
            connected: false,
            last_build_epoch: None,
            poll_delay_ms: LOG_REFRESH_MS,
        }
    }

    /// Takes the outcome of one poll of the server at time `now` (`None`
    /// where the request failed).
    pub fn on_poll(&mut self, result: Option<(Vec<LogLine>, u64)>, now: u64)
        requires
            old(self).wf(),
        ensures
            final(self).wf(),
            match result {
                Some((new_lines, new_offset)) => {
                    &&& final(self).connected
                    &&& final(self).offset == new_offset
                    &&& final(self).poll_delay_ms == next_poll_delay(
                        old(self).poll_delay_ms,
                        new_lines@.len() > 0,
                    )
                    &&& if new_lines@.len() == 0 {
                        &&& final(self).lines@ == old(self).lines@
                        &&& final(self).last_build_epoch == old(self).last_build_epoch
                    } else {
                        &&& final(self).lines@ == keep_last(
                            old(self).lines@ + new_lines@,
                            MAX_LOG_LINES as nat,
                        )
                        &&& final(self).last_build_epoch == Some(now)
                    }
                },
                None => {
                    &&& !final(self).connected
                    &&& final(self).poll_delay_ms == next_poll_delay(old(self).poll_delay_ms, false)
                    &&& final(self).lines@ == old(self).lines@
                    &&& final(self).offset == old(self).offset
                    &&& final(self).last_build_epoch == old(self).last_build_epoch
                },
            },
    {
        match result {
            Some((new_lines, new_offset)) => {
                self.connected = true;
                if new_lines.len() > 0 {
                    append_capped(&mut self.lines, &new_lines);
                    self.last_build_epoch = Some(now);
                    self.poll_delay_ms = LOG_REFRESH_MS;
                } else {
                    self.poll_delay_ms = backoff(self.poll_delay_ms);
                }
                self.offset = new_offset;
            },
            None => {
                self.connected = false;
                self.poll_delay_ms = backoff(self.poll_delay_ms);
            },
        }
    }

    /// Takes one payload of the server's log stream and gives the state to
    /// share with the other tabs, stamped `seq`.
    pub fn on_stream_payload(&mut self, payload: LogStreamPayload, seq: u64) -> (shared:
        SharedLogPayload)
        requires
            old(self).wf(),
        ensures
            final(self).wf(),
            final(self).connected,
            final(self).offset == payload.offset,
            final(self).poll_delay_ms == old(self).poll_delay_ms,
            final(self).last_build_epoch == (match payload.epoch_seconds {
                Some(e) => Some(e),
                None => old(self).last_build_epoch,
            }),
            final(self).lines@ == (if payload.replace {
                payload.lines@
            } else if payload.lines@.len() == 0 {
                old(self).lines@
            } else {
                keep_last(old(self).lines@ + payload.lines@, MAX_LOG_LINES as nat)
            }),
            shared.seq == seq,
            shared.lines@ == final(self).lines@,
            shared.offset == final(self).offset,
            shared.epoch_seconds == final(self).last_build_epoch,
    {
        self.connected = true;
        self.offset = payload.offset;
        if let Some(e) = payload.epoch_seconds {
            self.last_build_epoch = Some(e);
        }
        if payload.replace {
            self.lines = payload.lines;
        } else if payload.lines.len() > 0 {
            append_capped(&mut self.lines, &payload.lines);
        }
        SharedLogPayload {
            seq,
            lines: copy_lines(&self.lines),
            offset: self.offset,
            epoch_seconds: self.last_build_epoch,
        }
    }

    /// The log stream failed, or the tab went to the background.
    pub fn disconnect(&mut self)
        ensures
            !final(self).connected,
            final(self).lines == old(self).lines,
            final(self).offset == old(self).offset,
            final(self).last_build_epoch == old(self).last_build_epoch,
            final(self).poll_delay_ms == old(self).poll_delay_ms,
    {
        self.connected = false;
    }

    /// Takes the state a leading tab shared, if any could be read.
    pub fn on_shared(&mut self, shared: Option<SharedLogPayload>)
        requires
            old(self).wf(),
        ensures
            final(self).wf(),
            final(self).poll_delay_ms == old(self).poll_delay_ms,
            match shared {
                Some(s) => {
                    &&& final(self).connected
                    &&& final(self).lines@ == s.lines@
                    &&& final(self).offset == s.offset
                    &&& final(self).last_build_epoch == (match s.epoch_seconds {
                        Some(e) => Some(e),
                        None => old(self).last_build_epoch,
                    })
                },
                None => {
                    &&& !final(self).connected
                    &&& final(self).lines == old(self).lines
                    &&& final(self).offset == old(self).offset
                    &&& final(self).last_build_epoch == old(self).last_build_epoch
                },
            },
    {
        match shared {
            Some(s) => {
                self.lines = s.lines;
                self.offset = s.offset;
                if s.epoch_seconds.is_some() {
                    self.last_build_epoch = s.epoch_seconds;
                }
                self.connected = true;
            },
            None => {
                self.connected = false;
            },
        }
    }
}

/// What the terminal does on its next turn.
#[derive(PartialEq, Eq, Structural, Debug, Clone, Copy)]
pub enum TerminalStep {
    /// The tab is in the background: disconnect and wait.
    Pause,
    /// Another tab leads: take the state it shared.
    FollowShared,
    /// This tab leads: read new output from the server.
    Fetch,
}

/// The terminal's next turn: paused while the tab is hidden, following the
/// leading tab otherwise, fetching when it leads itself.
pub fn terminal_step(paused: bool, leader: bool) -> (step: TerminalStep)
    ensures
        step == (if paused {
            TerminalStep::Pause
        } else if !leader {
            TerminalStep::FollowShared
        } else {
            TerminalStep::Fetch
        }),
{
    if paused {
        TerminalStep::Pause
    } else if !leader {
        TerminalStep::FollowShared
    } else {
        TerminalStep::Fetch
    }
}

/// CSS class and label of the terminal's status badge.
pub open spec fn terminal_status_spec(paused: bool, connected: bool, leader: bool) -> (Seq<char>, Seq<
    char,
>) {
    if paused {
        ("terminal-status disconnected"@, "paused"@)
    } else if connected {
        if leader {
            ("terminal-status connected"@, "live"@)
        } else {
            ("terminal-status connected"@, "shared"@)
        }
    } else {
        ("terminal-status disconnected"@, "waiting"@)
    }
}

/// CSS class and label of the terminal's status badge.
pub fn terminal_status(paused: bool, connected: bool, leader: bool) -> (r: (
    &'static str,
    &'static str,
))
    ensures
        (r.0@, r.1@) == terminal_status_spec(paused, connected, leader),
{
    if paused {
        ("terminal-status disconnected", "paused")
    } else if connected {
        if leader {
            ("terminal-status connected", "live")
        } else {
            ("terminal-status connected", "shared")
        }
    } else {
        ("terminal-status disconnected", "waiting")
    }
}

/// Retained lines never exceed `MAX_LOG_LINES`, and they are the most
/// recent ones, in the order they arrived.
pub proof fn law_log_keeps_latest(old_lines: Seq<LogLine>, new_lines: Seq<LogLine>)
    requires
        old_lines.len() <= MAX_LOG_LINES,
    ensures
        keep_last(old_lines + new_lines, MAX_LOG_LINES as nat).len() <= MAX_LOG_LINES,
        new_lines.len() <= MAX_LOG_LINES ==> keep_last(
            old_lines + new_lines,
            MAX_LOG_LINES as nat,
        ).subrange(
            keep_last(old_lines + new_lines, MAX_LOG_LINES as nat).len() - new_lines.len(),
            keep_last(old_lines + new_lines, MAX_LOG_LINES as nat).len() as int,
        ) == new_lines,
{
    let all = old_lines + new_lines;
    let k = keep_last(all, MAX_LOG_LINES as nat);
    if new_lines.len() <= MAX_LOG_LINES {
        assert(k.subrange(k.len() - new_lines.len(), k.len() as int) =~= new_lines);
    }
}

/// Escaped text holds no `<` or `>`, so it cannot open or close a tag.
pub proof fn law_escaped_has_no_markup(s: Seq<char>)
    ensures
        forall|i: int| 0 <= i < escaped(s).len() ==> #[trigger] escaped(s)[i] != '<' && escaped(s)[i]
            != '>',
    decreases s.len(),
{
    if s.len() > 0 {
        law_escaped_has_no_markup(s.drop_last());
        reveal_strlit("&amp;");
        reveal_strlit("&lt;");
        reveal_strlit("&gt;");
        let pre = escaped(s.drop_last());
        let tail = escape_char(s.last());
        assert forall|i: int| 0 <= i < escaped(s).len() implies #[trigger] escaped(s)[i] != '<'
            && escaped(s)[i] != '>' by {
            if i < pre.len() {
                assert(escaped(s)[i] == pre[i]);
            } else {
                assert(escaped(s)[i] == tail[i - pre.len()]);
            }
        }
    }
}

proof fn lemma_strip_crs_prefix(s: Seq<char>)
    ensures
        strip_crs(s).len() <= s.len(),
        strip_crs(s) == s.take(strip_crs(s).len() as int),
        strip_crs(s).len() > 0 ==> strip_crs(s).last() != '\r',
    decreases s.len(),
{
    if s.len() > 0 && s.last() == '\r' {
        lemma_strip_crs_prefix(s.drop_last());
        let t = strip_crs(s.drop_last());
        assert(s.drop_last().take(t.len() as int) =~= s.take(t.len() as int));
    } else {
        assert(s.take(s.len() as int) =~= s);
    }
}

proof fn lemma_kept_pieces_clean(pieces: Seq<Seq<char>>, c: char)
    requires
        forall|k: int, j: int|
            0 <= k < pieces.len() && 0 <= j < pieces[k].len() ==> #[trigger] pieces[k][j] != c,
    ensures
        forall|k: int| 0 <= k < kept_pieces(pieces).len() ==> {
            &&& (#[trigger] kept_pieces(pieces)[k]).len() > 0
            &&& kept_pieces(pieces)[k].last() != '\r'
            &&& forall|j: int| 0 <= j < kept_pieces(pieces)[k].len() ==> kept_pieces(pieces)[k][j] != c
        },
    decreases pieces.len(),
{
    if pieces.len() > 0 {
        let rest_in = pieces.drop_last();
        assert forall|k: int, j: int|
            0 <= k < rest_in.len() && 0 <= j < rest_in[k].len() implies #[trigger] rest_in[k][j] != c by {
            assert(rest_in[k] == pieces[k]);
        }
        lemma_kept_pieces_clean(rest_in, c);
        let last = pieces.last();
        lemma_strip_crs_prefix(last);
        let t = strip_crs(last);
        assert forall|j: int| 0 <= j < t.len() implies t[j] != c by {
            assert(t[j] == last[j]);
            assert(pieces[pieces.len() - 1][j] != c);
        }
        let rest = kept_pieces(rest_in);
        let kept = kept_pieces(pieces);
        assert forall|k: int| 0 <= k < kept.len() implies {
            &&& (#[trigger] kept[k]).len() > 0
            &&& kept[k].last() != '\r'
            &&& forall|j: int| 0 <= j < kept[k].len() ==> kept[k][j] != c
        } by {
            if k < rest.len() {
                assert(kept[k] == rest[k]);
            } else {
                assert(kept[k] == t);
            }
        }
    }
}

/// Every line read from the log is non-empty, holds no line break and does
/// not end in a carriage return.
pub proof fn law_log_lines_clean(text: Seq<char>)
    ensures
        forall|k: int| 0 <= k < log_texts(text).len() ==> {
            &&& (#[trigger] log_texts(text)[k]).len() > 0
            &&& log_texts(text)[k].last() != '\r'
            &&& forall|j: int| 0 <= j < log_texts(text)[k].len() ==> log_texts(text)[k][j] != '\n'
        },
{
    lemma_split_on_pieces_lack_separator(text, '\n');
    lemma_kept_pieces_clean(split_on(text, '\n'), '\n');
}

proof fn lemma_split_on_after_line_end(a: Seq<char>, b: Seq<char>, c: char)
    requires
        a.len() > 0,
        a.last() == c,
    ensures
        split_on(a + b, c) == split_on(a, c).drop_last() + split_on(b, c),
    decreases b.len(),
{
    let x = split_on(a, c).drop_last();
    if b.len() == 0 {
        assert(a + b =~= a);
        assert(split_on(a, c) == split_on(a.drop_last(), c).push(Seq::<char>::empty()));
        assert(x + split_on(b, c) =~= split_on(a, c));
    } else {
        lemma_split_on_after_line_end(a, b.drop_last(), c);
        lemma_split_on_nonempty(b.drop_last(), c);
        assert((a + b).drop_last() =~= a + b.drop_last());
        assert((a + b).last() == b.last());
        let y = split_on(b.drop_last(), c);
        let prev = split_on(a + b.drop_last(), c);
        assert(prev == x + y);
        if b.last() == c {
            assert(prev.push(Seq::<char>::empty()) =~= x + y.push(Seq::<char>::empty()));
        } else {
            assert(prev.update(prev.len() - 1, prev.last().push(b.last())) =~= x + y.update(
                y.len() - 1,
                y.last().push(b.last()),
            ));
        }
    }
}

proof fn lemma_kept_pieces_concat(x: Seq<Seq<char>>, y: Seq<Seq<char>>)
    ensures
        kept_pieces(x + y) == kept_pieces(x) + kept_pieces(y),
    decreases y.len(),
{
    if y.len() == 0 {
        assert(x + y =~= x);
        assert(kept_pieces(x) + kept_pieces(y) =~= kept_pieces(x));
    } else {
        lemma_kept_pieces_concat(x, y.drop_last());
        assert((x + y).drop_last() =~= x + y.drop_last());
        assert((x + y).last() == y.last());
        let k = kept_pieces(x);
        let kr = kept_pieces(y.drop_last());
        let t = strip_crs(y.last());
        if t.len() == 0 {
        } else {
            assert((k + kr).push(t) =~= k + kr.push(t));
        }
    }
}

/// Text that ends a line splits into its log lines and those of what follows.
proof fn lemma_log_texts_after_line_end(a: Seq<char>, b: Seq<char>)
    requires
        a.len() == 0 || a.last() == '\n',
    ensures
        log_texts(a + b) == log_texts(a) + log_texts(b),
{
    if a.len() == 0 {
        assert(a + b =~= b);
        assert(split_on(a, '\n') == seq![Seq::<char>::empty()]);
        let p = split_on(a, '\n');
        assert(p.drop_last() =~= Seq::<Seq<char>>::empty());
        assert(kept_pieces(p.drop_last()) == Seq::<Seq<char>>::empty());
        assert(strip_crs(p.last()) == Seq::<char>::empty());
        assert(log_texts(a) =~= Seq::<Seq<char>>::empty());
        assert(log_texts(a) + log_texts(b) =~= log_texts(b));
    } else {
        lemma_split_on_after_line_end(a, b, '\n');
        let p = split_on(a, '\n');
        lemma_split_on_nonempty(a.drop_last(), '\n');
        assert(p == split_on(a.drop_last(), '\n').push(Seq::<char>::empty()));
        assert(p.last() == Seq::<char>::empty());
        assert(kept_pieces(p) == kept_pieces(p.drop_last()));
        lemma_kept_pieces_concat(p.drop_last(), split_on(b, '\n'));
    }
}

proof fn lemma_decode_concat(f: Seq<u8>, g: Seq<u8>)
    requires
        vstd::utf8::valid_utf8(f),
        vstd::utf8::valid_utf8(g),
    ensures
        vstd::utf8::valid_utf8(f + g),
        vstd::utf8::decode_utf8(f + g) == vstd::utf8::decode_utf8(f) + vstd::utf8::decode_utf8(g),
    decreases f.len(),
{
    broadcast use vstd::utf8::valid_utf8_concat;

    if f.len() == 0 {
        assert(f + g =~= g);
        assert(vstd::utf8::decode_utf8(f) =~= Seq::<char>::empty());
        assert(vstd::utf8::decode_utf8(f) + vstd::utf8::decode_utf8(g) =~= vstd::utf8::decode_utf8(
            g,
        ));
    } else {
        let fg = f + g;
        let n = vstd::utf8::length_of_first_scalar(f);
        assert(vstd::utf8::valid_first_scalar(f));
        assert(1 <= n <= f.len());
        assert(fg[0] == f[0]);
        assert(n >= 2 ==> fg[1] == f[1]);
        assert(n >= 3 ==> fg[2] == f[2]);
        assert(n >= 4 ==> fg[3] == f[3]);
        assert(vstd::utf8::length_of_first_scalar(fg) == n);
        assert(vstd::utf8::decode_first_scalar(fg) == vstd::utf8::decode_first_scalar(f));
        assert(vstd::utf8::valid_first_scalar(fg));
        let rest = vstd::utf8::pop_first_scalar(f);
        assert(rest.len() == f.len() - n);
        assert(vstd::utf8::pop_first_scalar(fg) =~= rest + g);
        lemma_decode_concat(rest, g);
        let c = vstd::utf8::decode_first_scalar(f) as char;
        assert(vstd::utf8::decode_utf8(fg) == seq![c] + vstd::utf8::decode_utf8(rest + g));
        assert(vstd::utf8::decode_utf8(f) == seq![c] + vstd::utf8::decode_utf8(rest));
        assert(seq![c] + (vstd::utf8::decode_utf8(rest) + vstd::utf8::decode_utf8(g)) =~= (seq![c]
            + vstd::utf8::decode_utf8(rest)) + vstd::utf8::decode_utf8(g));
    }
}

/// Reading on from the offset a read returned neither loses nor repeats a
/// line: where the log held `f`, ending a line, and `g` was appended, the
/// first read (from offset 0) covers `f`, the next starts exactly at its end,
/// and the lines of the two reads are those of one read of `f ++ g`.
pub proof fn law_reading_on_loses_nothing(f: Seq<u8>, g: Seq<u8>)
    requires
        vstd::utf8::valid_utf8(f),
        vstd::utf8::valid_utf8(g),
        f.len() == 0 || vstd::utf8::decode_utf8(f).last() == '\n',
        f.len() + g.len() <= MAX_INITIAL_READ_BYTES,
    ensures
        seek_position(0, f.len() as u64) == 0,
        seek_position(f.len() as u64, (f.len() + g.len()) as u64) == f.len(),
        vstd::utf8::valid_utf8(f + g),
        log_texts(vstd::utf8::decode_utf8(f + g)) == log_texts(vstd::utf8::decode_utf8(f))
            + log_texts(vstd::utf8::decode_utf8(g)),
{
    lemma_decode_concat(f, g);
    let a = vstd::utf8::decode_utf8(f);
    if f.len() == 0 {
        assert(a =~= Seq::<char>::empty());
    }
    lemma_log_texts_after_line_end(a, vstd::utf8::decode_utf8(g));
}

} // verus!
