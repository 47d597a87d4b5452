use vstd::prelude::*;
use vstd::slice::{slice_subrange, slice_to_vec};
use vstd::string::StringExecFns;

verus! {

/// The text of each argument of a list.
pub open spec fn texts(v: Seq<String>) -> Seq<Seq<char>> {
    v.map_values(|s: String| s@)
}

/// A bind address with every `:` escaped as `\:`.
pub open spec fn escape_colons_spec(s: Seq<char>) -> Seq<char>
    decreases s.len(),
{
    if s.len() == 0 {
        Seq::empty()
    } else {
        escape_colons_spec(s.drop_last()) + if s.last() == ':' {
            seq!['\\', ':']
        } else {
            seq![s.last()]
        }
    }
}

/// The verbosity argument handed to both processes.
pub open spec fn log_format_spec(level: Seq<char>) -> Seq<char> {
    "level+"@ + level
}

/// The text-overlay filter of the encoder.
pub open spec fn text_filter_spec(bind_address: Seq<char>, fontfile: Seq<char>) -> Seq<char> {
    "null,zmq=b=tcp\\\\://'"@ + escape_colons_spec(bind_address) + "',drawtext=text='':fontfile='"@
        + fontfile + "'"@
}

/// The encoder's argument list.
pub open spec fn encoder_args_spec(
    level: Seq<char>,
    text_overlay: bool,
    bind_address: Seq<char>,
    fontfile: Seq<char>,
) -> Seq<Seq<char>> {
    seq!["-hide_banner"@, "-nostats"@, "-v"@, log_format_spec(level), "-i"@, "pipe:0"@] + if text_overlay {
        seq!["-vf"@, text_filter_spec(bind_address, fontfile)]
    } else {
        Seq::empty()
    }
}

/// The decoder's argument list for one item.
pub open spec fn decoder_args_spec(
    level: Seq<char>,
    cmd: Seq<Seq<char>>,
    filter: Seq<Seq<char>>,
    settings: Seq<Seq<char>>,
) -> Seq<Seq<char>> {
    seq!["-v"@, log_format_spec(level), "-hide_banner"@, "-nostats"@] + cmd + if filter.len() > 1 {
        filter
    } else {
        Seq::empty()
    } + settings
}

/// Escapes every `:` of a bind address as `\:`.
pub fn escape_colons(s: &str) -> (r: String)
    ensures
        r@ == escape_colons_spec(s@),
{
    let n: usize = s.unicode_len();
    let mut r = String::new();
    let mut i: usize = 0;
    while i < n
        invariant
            n == s@.len(),
            i <= n,
            r@ == escape_colons_spec(s@.subrange(0, i as int)),
        decreases n - i,
    {
        let c = s.get_char(i);
        assert(s@.subrange(0, i + 1).drop_last() =~= s@.subrange(0, i as int));
        if c == ':' {
            r.append("\\:");
            proof {
                reveal_strlit("\\:");
                assert("\\:"@ =~= seq!['\\', ':']);
            }
        } else {
            r.append(s.substring_char(i, i + 1));
            assert(s@.subrange(i as int, i + 1) =~= seq![c]);
        }
        i = i + 1;
    }
    assert(s@.subrange(0, i as int) =~= s@);
    r
}

/// The verbosity argument: `level+` followed by the level.
pub fn log_format(level: &str) -> (r: String)
    ensures
        r@ == log_format_spec(level@),
{
    let r = "level+".to_owned();
    r.concat(level)
}

fn push_text(out: &mut Vec<String>, s: &str)
    ensures
        texts(final(out)@) == texts(old(out)@).push(s@),
{
    let ghost prev = out@;
    out.push(s.to_owned());
    assert(texts(out@) =~= texts(prev).push(s@));
}

fn push_all(out: &mut Vec<String>, v: &Vec<String>)
    ensures
        texts(final(out)@) == texts(old(out)@) + texts(v@),
{
    let ghost start = out@;
    let mut i: usize = 0;
    while i < v.len()
        invariant
            i <= v@.len(),
            texts(out@) == texts(start) + texts(v@.subrange(0, i as int)),
        decreases v@.len() - i,
    {
        let ghost prev = out@;
        out.push(v[i].clone());
        assert(texts(out@) =~= texts(prev).push(v@[i as int]@));
        assert(texts(v@.subrange(0, i + 1)) =~= texts(v@.subrange(0, i as int)).push(
            v@[i as int]@,
        ));
        i = i + 1;
    }
    assert(v@.subrange(0, i as int) =~= v@);
}

/// The encoder reads from its input pipe; the text overlay is added when
/// it is enabled and not already composited before the encoder.
pub fn encoder_args(
    level: &str,
    add_text: bool,
    over_pre: bool,
    bind_address: &str,
    fontfile: &str,
) -> (r: Vec<String>)
    ensures
        texts(r@) == encoder_args_spec(level@, add_text && !over_pre, bind_address@, fontfile@),
{
    let mut r: Vec<String> = Vec::new();
    push_text(&mut r, "-hide_banner");
    push_text(&mut r, "-nostats");
    push_text(&mut r, "-v");
    let fmt = log_format(level);
    push_text(&mut r, fmt.as_str());
    push_text(&mut r, "-i");
    push_text(&mut r, "pipe:0");
    let ghost base = texts(r@);
    assert(base =~= seq!["-hide_banner"@, "-nostats"@, "-v"@, log_format_spec(level@), "-i"@, "pipe:0"@]);
    if add_text && !over_pre {
        let filter = "null,zmq=b=tcp\\\\://'".to_owned().concat(escape_colons(bind_address).as_str()).concat(
            "',drawtext=text='':fontfile='",
        ).concat(fontfile).concat("'");
        push_text(&mut r, "-vf");
        push_text(&mut r, filter.as_str());
        assert(texts(r@) =~= base + seq!["-vf"@, text_filter_spec(bind_address@, fontfile@)]);
    } else {
        assert(texts(r@) =~= base + Seq::empty());
    }
    r
}

/// The decoder gets the verbosity flags, the item's command, its filter
/// arguments when there is more than one, and the channel's settings.
pub fn decoder_args(
    level: &str,
    cmd: &Vec<String>,
    filter: &Vec<String>,
    settings: &Vec<String>,
) -> (r: Vec<String>)
    ensures
        texts(r@) == decoder_args_spec(level@, texts(cmd@), texts(filter@), texts(settings@)),
{
    let mut r: Vec<String> = Vec::new();
    push_text(&mut r, "-v");
    let fmt = log_format(level);
    push_text(&mut r, fmt.as_str());
    push_text(&mut r, "-hide_banner");
    push_text(&mut r, "-nostats");
    let ghost base = texts(r@);
    assert(base =~= seq!["-v"@, log_format_spec(level@), "-hide_banner"@, "-nostats"@]);
    push_all(&mut r, cmd);
    let ghost with_cmd = texts(r@);
    if filter.len() > 1 {
        push_all(&mut r, filter);
    } else {
        assert(texts(r@) =~= with_cmd + Seq::empty());
    }
    push_all(&mut r, settings);
    r
}

/// Where the relay of one item stands.
pub enum RelayPhase {
    /// Waiting for the next chunk from the decoder.
    Reading,
    /// A chunk was handed out to be written to the encoder.
    Writing,
    /// The decoder's output ended; waiting for the decoder to exit.
    Waiting,
    /// The item is done; the next one may start.
    Finished,
    /// A read, write or wait failed: the pipeline cannot be trusted.
    Aborted,
}

/// What the caller does next.
pub enum RelayAction {
    /// Write exactly these bytes to the encoder's input.
    Write(Vec<u8>),
    /// Read the next chunk from the decoder's output.
    Read,
    /// Wait for the decoder process to exit.
    WaitDecoder,
    /// Start the next scheduled item.
    NextItem,
    /// Stop the relay for good.
    Abort,
}

/// The decisions of the byte relay for one item, driven by the outcomes of
/// the reads, writes and wait that the caller performs.
pub struct ItemRelay {
    pub phase: RelayPhase,
    /// Length of the chunk being written.
    pub pending: usize,
    /// Every byte read from the decoder so far.
    pub received: Ghost<Seq<u8>>,
    /// Every byte confirmed written to the encoder so far.
    pub sent: Ghost<Seq<u8>>,
    /// The chunk being written.
    pub in_flight: Ghost<Seq<u8>>,
}

impl ItemRelay {
    /// What was read and what was written agree.
    pub open spec fn faithful(&self) -> bool {
        match self.phase {
            RelayPhase::Writing => {
                &&& self.sent@ + self.in_flight@ == self.received@
                &&& self.in_flight@.len() == self.pending
            },
            RelayPhase::Aborted => true,
            _ => self.sent@ == self.received@,
        }
    }

    /// A relay that has read and written nothing.
    pub fn new() -> (r: ItemRelay)
        ensures
            r.phase is Reading,
            r.received@ == Seq::<u8>::empty(),
            r.sent@ == Seq::<u8>::empty(),
            r.faithful(),
    {
        ItemRelay {
            phase: RelayPhase::Reading,
            pending: 0,
            received: Ghost(Seq::empty()),
            sent: Ghost(Seq::empty()),
            in_flight: Ghost(Seq::empty()),
        }
    }

    /// A read returned `read` (`None`: it failed) into `buffer`. The bytes
    /// read are handed out to be written, the empty last chunk included.
    pub fn on_read(&mut self, read: Option<usize>, buffer: &[u8]) -> (a: RelayAction)
        requires
            old(self).faithful(),
        ensures
            final(self).faithful(),
            final(self).sent@ == old(self).sent@,
            match read {
                Some(n) if old(self).phase is Reading && n <= buffer@.len() => {
                    &&& final(self).phase is Writing
                    &&& final(self).pending == n
                    &&& final(self).received@ == old(self).received@ + buffer@.subrange(0, n as int)
                    &&& a matches RelayAction::Write(bytes) && bytes@ == buffer@.subrange(0, n as int)
                },
                _ => final(self).phase is Aborted && a is Abort,
            },
    {
        match read {
            Some(n) => {
                if let RelayPhase::Reading = self.phase {
                    if n <= buffer.len() {
                        let bytes = slice_to_vec(slice_subrange(buffer, 0, n));
                        self.phase = RelayPhase::Writing;
                        self.pending = n;
                        self.received = Ghost(self.received@ + bytes@);
                        self.in_flight = Ghost(bytes@);
                        return RelayAction::Write(bytes);
                    }
                }
                self.phase = RelayPhase::Aborted;
                RelayAction::Abort
            },
            None => {
                self.phase = RelayPhase::Aborted;
                RelayAction::Abort
            },
        }
    }

    /// The write of the chunk handed out succeeded (`ok`) or failed. After
    /// the empty chunk the decoder is waited for; after any other, the
    /// next chunk is read. A failed write ends the relay.
    pub fn on_write(&mut self, ok: bool) -> (a: RelayAction)
        requires
            old(self).faithful(),
        ensures
            final(self).faithful(),
            final(self).received@ == old(self).received@,
            if ok && old(self).phase is Writing {
                &&& final(self).sent@ == old(self).sent@ + old(self).in_flight@
                &&& old(self).pending == 0 ==> final(self).phase is Waiting && a is WaitDecoder
                &&& old(self).pending > 0 ==> final(self).phase is Reading && a is Read
            } else {
                final(self).phase is Aborted && a is Abort
            },
    {
        if ok {
            if let RelayPhase::Writing = self.phase {
                self.sent = Ghost(self.sent@ + self.in_flight@);
                self.in_flight = Ghost(Seq::empty());
                if self.pending == 0 {
                    self.phase = RelayPhase::Waiting;
                    return RelayAction::WaitDecoder;
                } else {
                    self.pending = 0;
                    self.phase = RelayPhase::Reading;
                    return RelayAction::Read;
                }
            }
        }
        self.phase = RelayPhase::Aborted;
        RelayAction::Abort
    }

    /// The decoder exited (`ok`) or waiting for it failed.
    pub fn on_wait(&mut self, ok: bool) -> (a: RelayAction)
        requires
            old(self).faithful(),
        ensures
            final(self).faithful(),
            final(self).received@ == old(self).received@,
            final(self).sent@ == old(self).sent@,
            if ok && old(self).phase is Waiting {
                final(self).phase is Finished && a is NextItem
            } else {
                final(self).phase is Aborted && a is Abort
            },
    {
        if ok {
            if let RelayPhase::Waiting = self.phase {
                self.phase = RelayPhase::Finished;
                return RelayAction::NextItem;
            }
        }
        self.phase = RelayPhase::Aborted;
        RelayAction::Abort
    }

    /// Whether the relay has ended for good.
    pub fn is_aborted(&self) -> (r: bool)
        ensures
            r == self.phase is Aborted,
    {
        matches!(self.phase, RelayPhase::Aborted)
    }
}

/// Byte fidelity: when the relay of an item has ended normally, the bytes
/// written to the encoder are exactly the bytes read from the decoder, in
/// order.
pub proof fn lemma_finished_relay_is_faithful(r: ItemRelay)
    requires
        r.faithful(),
        r.phase is Finished || r.phase is Waiting,
    ensures
        r.sent@ == r.received@,
{
}

} // verus!
