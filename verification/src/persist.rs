//! Persistence: a size-bounded two-file log of consolidated snapshots.
//!
//! Each snapshot is one line of JSON bytes. The log keeps a "current"
//! file and an "old" file: when the current file has grown to half the
//! size limit, it is renamed over the old file and a fresh current file
//! is started, bounding the total on-disk size to roughly the limit.
//! Loading reads the old file then the current file, line by line:
//! blank lines are skipped, and every other line must hold exactly one
//! record (padded at most by spaces, tabs or a carriage return). A line
//! holding anything else fails the whole load rather than silently
//! presenting a partial history.
//!
//! `PersistedLog` holds the two files' contents; mirroring them onto
//! disk (create, rename, append) is left to the caller.

use vstd::prelude::*;

use crate::codec::at_lit;
use crate::codec_exec::{emit_allstats, parse_allstats};
use crate::codec_objs::{dec_allstats, enc_allstats};
use crate::stats::{views, AllStats, AllStatsV};
use crate::stats_history::StatsHistory;

verus! {

/// The error of loading a persisted history: some line of one of the
/// files does not parse as a snapshot record.
#[derive(Clone, Copy, Debug, PartialEq, Eq, Structural)]
pub enum LoadError {
    /// A line of a history file is not a well-formed snapshot record.
    Malformed,
}

/// A byte that may pad a record within its line: space, tab or
/// carriage return.
pub open spec fn is_inline_blank(b: u8) -> bool {
    b == 0x20 || b == 0x09 || b == 0x0d
}

/// A byte that is whitespace between lines: inline padding or the
/// newline itself.
pub open spec fn is_blank(b: u8) -> bool {
    is_inline_blank(b) || b == 0x0a
}

/// The position of the first non-blank byte at or after `pos`.
pub open spec fn skip_blank(s: Seq<u8>, pos: int) -> int
    decreases s.len() - pos,
{
    if 0 <= pos < s.len() && is_blank(s[pos]) {
        skip_blank(s, pos + 1)
    } else {
        pos
    }
}

/// The position of the first byte at or after `pos` that is not inline
/// padding.
pub open spec fn skip_inline_blank(s: Seq<u8>, pos: int) -> int
    decreases s.len() - pos,
{
    if 0 <= pos < s.len() && is_inline_blank(s[pos]) {
        skip_inline_blank(s, pos + 1)
    } else {
        pos
    }
}

/// Skipping blanks never moves backwards, nor past the end.
pub proof fn lemma_skip_blank_ge(s: Seq<u8>, pos: int)
    ensures
        skip_blank(s, pos) >= pos,
        pos <= s.len() ==> skip_blank(s, pos) <= s.len(),
    decreases s.len() - pos,
{
    if 0 <= pos < s.len() && is_blank(s[pos]) {
        lemma_skip_blank_ge(s, pos + 1);
    }
}

/// Skipping inline padding never moves backwards, nor past the end.
pub proof fn lemma_skip_inline_blank_ge(s: Seq<u8>, pos: int)
    ensures
        skip_inline_blank(s, pos) >= pos,
        pos <= s.len() ==> skip_inline_blank(s, pos) <= s.len(),
    decreases s.len() - pos,
{
    if 0 <= pos < s.len() && is_inline_blank(s[pos]) {
        lemma_skip_inline_blank_ge(s, pos + 1);
    }
}

/// Parses a whole history file, line by line: blank lines are skipped,
/// and every other line must hold exactly one snapshot record, possibly
/// padded with spaces, tabs or a carriage return. A line holding
/// anything else — garbage, a truncated record, or more than one
/// record — makes the whole parse fail with `None`.
pub open spec fn dec_file(s: Seq<u8>, pos: int) -> Option<Seq<AllStatsV>>
    decreases s.len() - pos,
        via dec_file_decreases
{
    let p = skip_blank(s, pos);
    if p >= s.len() || p < 0 {
        Some(Seq::empty())
    } else {
        match dec_allstats(s, p) {
            None => None,
            Some((v, e)) => {
                if e <= p || e > s.len() {
                    None
                } else {
                    // only inline padding may follow the record on its
                    // line, closed by a newline or the end of the file
                    let q = skip_inline_blank(s, e);
                    if q == s.len() || (q < s.len() && s[q] == 0x0a) {
                        match dec_file(s, q) {
                            None => None,
                            Some(rest) => Some(seq![v] + rest),
                        }
                    } else {
                        None
                    }
                }
            },
        }
    }
}

#[via_fn]
proof fn dec_file_decreases(s: Seq<u8>, pos: int) {
    lemma_skip_blank_ge(s, pos);
    let p = skip_blank(s, pos);
    if 0 <= p < s.len() {
        match dec_allstats(s, p) {
            Some((v, e)) => {
                lemma_skip_inline_blank_ge(s, e);
            },
            None => {},
        }
    }
}

/// Two starting points with the same first non-blank byte parse to the
/// same entries.
pub proof fn lemma_dec_file_skip(s: Seq<u8>, a: int, b: int)
    requires
        skip_blank(s, a) == skip_blank(s, b),
    ensures
        dec_file(s, a) == dec_file(s, b),
{
}

/// The entries of an optional file's contents; an absent file holds no
/// entries.
pub open spec fn file_entries(contents: Option<Seq<u8>>) -> Option<Seq<AllStatsV>> {
    match contents {
        None => Some(Seq::empty()),
        Some(b) => dec_file(b, 0),
    }
}

/// Mathematical view of a `PersistedLog`: the two files' contents, with
/// `None` for a file that does not exist.
pub struct PersistedLogV {
    pub current: Option<Seq<u8>>,
    pub old: Option<Seq<u8>>,
}

/// Whether an append with the given size limit rotates first: the
/// current file exists and has grown to half the limit.
pub open spec fn rotates(log: PersistedLogV, size_limit: u64) -> bool {
    match log.current {
        Some(c) => c.len() >= size_limit / 2,
        None => false,
    }
}

/// The log contents after appending one snapshot: rotate if due, then
/// append the snapshot's line to the current file (creating it).
pub open spec fn append_spec(log: PersistedLogV, stats: AllStatsV, size_limit: u64) -> PersistedLogV {
    let base = if rotates(log, size_limit) {
        PersistedLogV { current: None, old: log.current }
    } else {
        log
    };
    let cur = match base.current {
        Some(c) => c,
        None => Seq::empty(),
    };
    PersistedLogV { current: Some(cur + enc_allstats(stats) + seq![0x0au8]), old: base.old }
}

/// The entries a log holds: the old file's entries followed by the
/// current file's, or nothing if any line of either is malformed.
pub open spec fn load_spec(log: PersistedLogV) -> Option<Seq<AllStatsV>> {
    match (file_entries(log.old), file_entries(log.current)) {
        (Some(o), Some(c)) => Some(o + c),
        _ => None,
    }
}

/// A size-bounded two-file log, held as the two files' contents.
pub struct PersistedLog {
    /// The current file's contents, or `None` if it does not exist.
    pub current: Option<Vec<u8>>,
    /// The old file's contents, or `None` if it does not exist.
    pub old: Option<Vec<u8>>,
}

impl View for PersistedLog {
    type V = PersistedLogV;

    open spec fn view(&self) -> PersistedLogV {
        PersistedLogV {
            current: match self.current {
                Some(c) => Some(c@),
                None => None,
            },
            old: match self.old {
                Some(o) => Some(o@),
                None => None,
            },
        }
    }
}

impl PersistedLog {
    /// An empty log: neither file exists.
    pub fn new() -> (r: PersistedLog)
        ensures
            r@ == (PersistedLogV { current: None, old: None }),
    {
        PersistedLog { current: None, old: None }
    }

    /// A log with the given file contents, as read from disk.
    pub fn from_contents(current: Option<Vec<u8>>, old: Option<Vec<u8>>) -> (r: PersistedLog)
        ensures
            r@.current == match current {
                Some(c) => Some(c@),
                None => None::<Seq<u8>>,
            },
            r@.old == match old {
                Some(o) => Some(o@),
                None => None::<Seq<u8>>,
            },
    {
        PersistedLog { current, old }
    }

    /// Appends one snapshot to the log, rotating the current file into
    /// the old slot first when it has reached half the size limit.
    pub fn append(&mut self, stats: &AllStats, size_limit: u64)
        ensures
            final(self)@ == append_spec(old(self)@, stats@, size_limit),
    {
        let rotate = match &self.current {
            Some(c) => c.len() as u64 >= size_limit / 2,
            None => false,
        };
        if rotate {
            let cur = self.current.take();
            self.old = cur;
        }
        let mut line = match self.current.take() {
            Some(c) => c,
            None => Vec::new(),
        };
        emit_allstats(stats, &mut line);
        line.push(0x0a);
        proof {
            assert(line@ =~= match append_spec(old(self)@, stats@, size_limit).current {
                Some(c) => c,
                None => Seq::<u8>::empty(),
            });
        }
        self.current = Some(line);
    }

    /// Reads the log back: the old file's entries, then the current
    /// file's, oldest first; fails if any line is malformed.
    pub fn load(&self) -> (r: Result<Vec<AllStats>, LoadError>)
        ensures
            match r {
                Ok(v) => load_spec(self@) == Some(views(v@)),
                Err(e) => load_spec(self@) is None,
            },
    {
        let mut entries: Vec<AllStats> = Vec::new();
        match &self.old {
            Some(o) => {
                match decode_file_into(o.as_slice(), &mut entries) {
                    Ok(()) => {},
                    Err(e) => {
                        return Err(e);
                    },
                }
            },
            None => {},
        }
        match &self.current {
            Some(c) => {
                match decode_file_into(c.as_slice(), &mut entries) {
                    Ok(()) => {},
                    Err(e) => {
                        return Err(e);
                    },
                }
            },
            None => {},
        }
        proof {
            match (file_entries(self@.old), file_entries(self@.current)) {
                (Some(o), Some(c)) => {
                    assert(views(entries@) =~= o + c);
                },
                _ => {},
            }
        }
        Ok(entries)
    }
}

/// Encodes one snapshot as its persisted line, without the trailing
/// newline.
pub fn encode_line(stats: &AllStats) -> (r: Vec<u8>)
    ensures
        r@ == enc_allstats(stats@),
{
    let mut out: Vec<u8> = Vec::new();
    emit_allstats(stats, &mut out);
    out
}

/// Whether a current file of the given size is due for rotation under
/// the given size limit.
pub fn should_rotate(current_size: u64, size_limit: u64) -> (r: bool)
    ensures
        r == (current_size >= size_limit / 2),
{
    current_size >= size_limit / 2
}

/// A log that has never been written to: neither file exists.
pub open spec fn empty_log() -> PersistedLogV {
    PersistedLogV { current: None, old: None }
}

/// The file contents holding the given entries: one encoded line per
/// entry, each ended by a newline.
pub open spec fn lines_of(es: Seq<AllStatsV>) -> Seq<u8>
    decreases es.len(),
{
    if es.len() == 0 {
        Seq::empty()
    } else {
        enc_allstats(es[0]) + seq![0x0au8] + lines_of(es.drop_first())
    }
}

/// Appending an entry's line extends the file contents at the back.
pub proof fn lemma_lines_of_snoc(es: Seq<AllStatsV>, v: AllStatsV)
    ensures
        lines_of(es.push(v)) == lines_of(es) + enc_allstats(v) + seq![0x0au8],
    decreases es.len(),
{
    if es.len() == 0 {
        assert(es.push(v)[0] == v);
        assert(es.push(v).drop_first() =~= Seq::<AllStatsV>::empty());
        assert(lines_of(es.push(v)) =~= lines_of(es) + enc_allstats(v) + seq![0x0au8]);
    } else {
        lemma_lines_of_snoc(es.drop_first(), v);
        assert(es.push(v)[0] == es[0]);
        assert(es.push(v).drop_first() =~= es.drop_first().push(v));
        assert(lines_of(es.push(v)) == enc_allstats(es.push(v)[0]) + seq![0x0au8] + lines_of(
            es.push(v).drop_first(),
        ));
        assert(lines_of(es.push(v)) =~= lines_of(es) + enc_allstats(v) + seq![0x0au8]);
    }
}

/// A file holding exactly the lines of `es`, ending where the input
/// ends, parses back to `es`.
pub proof fn lemma_dec_file_lines(s: Seq<u8>, pos: int, es: Seq<AllStatsV>)
    requires
        at_lit(s, pos, lines_of(es)),
        pos + lines_of(es).len() == s.len(),
    ensures
        dec_file(s, pos) == Some(es),
    decreases es.len(),
{
    if es.len() == 0 {
        assert(pos == s.len());
        assert(skip_blank(s, pos) == pos);
        assert(es =~= Seq::<AllStatsV>::empty());
    } else {
        let head = enc_allstats(es[0]);
        let rest = es.drop_first();
        assert(lines_of(es) =~= head + (seq![0x0au8] + lines_of(rest)));
        crate::codec::lemma_at_concat(s, pos, head, seq![0x0au8] + lines_of(rest));
        let e = pos + head.len();
        crate::codec::lemma_at_concat(s, e, seq![0x0au8], lines_of(rest));
        crate::codec::lemma_at_index(s, e, seq![0x0au8], 0);
        assert(s[e] == 0x0a);
        crate::codec_objs::lemma_enc_allstats_shape(es[0]);
        crate::codec::lemma_at_index(s, pos, head, 0);
        assert(s[pos] == 0x7b);
        assert(skip_blank(s, pos) == pos);
        crate::codec_objs::lemma_dec_allstats_at(s, pos, es[0]);
        lemma_dec_file_lines(s, e + 1, rest);
        assert(skip_inline_blank(s, e) == e);
        assert(skip_blank(s, e) == skip_blank(s, e + 1));
        lemma_dec_file_skip(s, e, e + 1);
        assert(dec_file(s, pos) == Some(seq![es[0]] + rest));
        assert(seq![es[0]] + rest =~= es);
    }
}

/// The persistence round trip: appending three snapshots to a fresh
/// log, with a size limit that forces at most one rotation among those
/// appends, loads back exactly those three snapshots in order.
#[verifier::rlimit(100)]
pub proof fn lemma_persistence_round_trip(a: AllStatsV, b: AllStatsV, c: AllStatsV, size_limit: u64)
    requires
        !(rotates(append_spec(empty_log(), a, size_limit), size_limit) && rotates(
            append_spec(append_spec(empty_log(), a, size_limit), b, size_limit),
            size_limit,
        )),
    ensures
        load_spec(
            append_spec(
                append_spec(append_spec(empty_log(), a, size_limit), b, size_limit),
                c,
                size_limit,
            ),
        ) == Some(seq![a, b, c]),
{
    let l1 = append_spec(empty_log(), a, size_limit);
    let l2 = append_spec(l1, b, size_limit);
    let l3 = append_spec(l2, c, size_limit);
    let la = seq![a];
    let lab = seq![a, b];
    let lb = seq![b];
    let lbc = seq![b, c];
    let lc = seq![c];
    let labc = seq![a, b, c];
    lemma_lines_of_snoc(Seq::<AllStatsV>::empty(), a);
    assert(Seq::<AllStatsV>::empty().push(a) =~= la);
    assert(lines_of(la) =~= enc_allstats(a) + seq![0x0au8]);
    assert(l1.current == Some(lines_of(la)));
    if rotates(l1, size_limit) {
        // the first rotation happens while appending `b`
        assert(l2.old == Some(lines_of(la)));
        lemma_lines_of_snoc(Seq::<AllStatsV>::empty(), b);
        assert(Seq::<AllStatsV>::empty().push(b) =~= lb);
        assert(lines_of(lb) =~= enc_allstats(b) + seq![0x0au8]);
        assert(l2.current == Some(lines_of(lb)));
        assert(!rotates(l2, size_limit));
        assert(l3.old == Some(lines_of(la)));
        lemma_lines_of_snoc(lb, c);
        assert(lb.push(c) =~= lbc);
        assert(l3.current == Some(lines_of(lbc)));
        assert(at_lit(lines_of(la), 0, lines_of(la))) by {
            assert(lines_of(la).subrange(0, lines_of(la).len() as int) =~= lines_of(la));
        }
        lemma_dec_file_lines(lines_of(la), 0, la);
        assert(at_lit(lines_of(lbc), 0, lines_of(lbc))) by {
            assert(lines_of(lbc).subrange(0, lines_of(lbc).len() as int) =~= lines_of(lbc));
        }
        lemma_dec_file_lines(lines_of(lbc), 0, lbc);
        assert(load_spec(l3) == Some(la + lbc));
        assert(la + lbc =~= labc);
    } else {
        lemma_lines_of_snoc(la, b);
        assert(la.push(b) =~= lab);
        assert(l2.current == Some(lines_of(lab)));
        assert(l2.old is None);
        if rotates(l2, size_limit) {
            // the one rotation happens while appending `c`
            assert(l3.old == Some(lines_of(lab)));
            lemma_lines_of_snoc(Seq::<AllStatsV>::empty(), c);
            assert(Seq::<AllStatsV>::empty().push(c) =~= lc);
            assert(l3.current == Some(lines_of(lc)));
            assert(at_lit(lines_of(lab), 0, lines_of(lab))) by {
                assert(lines_of(lab).subrange(0, lines_of(lab).len() as int) =~= lines_of(lab));
            }
            lemma_dec_file_lines(lines_of(lab), 0, lab);
            assert(at_lit(lines_of(lc), 0, lines_of(lc))) by {
                assert(lines_of(lc).subrange(0, lines_of(lc).len() as int) =~= lines_of(lc));
            }
            lemma_dec_file_lines(lines_of(lc), 0, lc);
            assert(load_spec(l3) == Some(lab + lc));
            assert(lab + lc =~= labc);
        } else {
            // no rotation at all
            lemma_lines_of_snoc(lab, c);
            assert(lab.push(c) =~= labc);
            assert(l3.current == Some(lines_of(labc)));
            assert(l3.old is None);
            assert(at_lit(lines_of(labc), 0, lines_of(labc))) by {
                assert(lines_of(labc).subrange(0, lines_of(labc).len() as int) =~= lines_of(
                    labc,
                ));
            }
            lemma_dec_file_lines(lines_of(labc), 0, labc);
            assert(load_spec(l3) == Some(Seq::<AllStatsV>::empty() + labc));
            assert(Seq::<AllStatsV>::empty() + labc =~= labc);
        }
    }
}

/// Parses a whole history file's contents line by line, appending each
/// record to `entries`; fails without touching the order if any
/// non-blank line is not exactly one record.
#[verifier::rlimit(100)]
fn decode_file_into(s: &[u8], entries: &mut Vec<AllStats>) -> (r: Result<(), LoadError>)
    ensures
        match r {
            Ok(()) => dec_file(s@, 0) is Some && views(final(entries)@) == views(old(entries)@)
                + dec_file(s@, 0).unwrap(),
            Err(e) => dec_file(s@, 0) is None,
        },
{
    let ghost orig = entries@;
    let mut pos: usize = 0;
    let n = s.len();
    loop
        invariant
            orig == old(entries)@,
            pos <= n,
            n == s@.len(),
            entries@.len() >= orig.len(),
            entries@.subrange(0, orig.len() as int) == orig,
            dec_file(s@, 0) == (match dec_file(s@, pos as int) {
                Some(rest) => Some(
                    views(entries@.subrange(orig.len() as int, entries@.len() as int)) + rest,
                ),
                None => None::<Seq<AllStatsV>>,
            }),
        decreases n - pos,
    {
        // skip blank bytes
        let ghost pos0 = pos as int;
        while pos < n && (s[pos] == 0x20 || s[pos] == 0x09 || s[pos] == 0x0d || s[pos] == 0x0a)
            invariant
                pos0 <= pos <= n,
                n == s@.len(),
                skip_blank(s@, pos as int) == skip_blank(s@, pos0),
            decreases n - pos,
        {
            pos = pos + 1;
        }
        proof {
            assert(skip_blank(s@, pos as int) == pos as int);
            lemma_dec_file_skip(s@, pos0, pos as int);
        }
        if pos >= n {
            proof {
                let done = entries@.subrange(orig.len() as int, entries@.len() as int);
                assert(views(done) + Seq::<AllStatsV>::empty() =~= views(done));
                assert(entries@ =~= orig + done);
                assert(views(entries@) =~= views(orig) + views(done));
            }
            return Ok(());
        }
        let (v, e) = match parse_allstats(s, pos) {
            Some(p) => p,
            None => {
                return Err(LoadError::Malformed);
            },
        };
        // only inline padding may follow the record on its line
        let mut q = e;
        while q < n && (s[q] == 0x20 || s[q] == 0x09 || s[q] == 0x0d)
            invariant
                e <= q <= n,
                n == s@.len(),
                skip_inline_blank(s@, q as int) == skip_inline_blank(s@, e as int),
            decreases n - q,
        {
            q = q + 1;
        }
        proof {
            assert(skip_inline_blank(s@, q as int) == q as int);
        }
        if !(q == n || s[q] == 0x0a) {
            return Err(LoadError::Malformed);
        }
        let ghost vv = v@;
        let ghost pre = entries@;
        entries.push(v);
        proof {
            assert(entries@.subrange(0, orig.len() as int) =~= orig);
            let done = entries@.subrange(orig.len() as int, entries@.len() as int);
            let pdone = pre.subrange(orig.len() as int, pre.len() as int);
            assert(done =~= pdone.push(v));
            assert(views(done) =~= views(pdone).push(vv));
            match dec_file(s@, q as int) {
                Some(rest) => {
                    assert(views(pdone) + (seq![vv] + rest) =~= views(done) + rest);
                },
                None => {},
            }
        }
        pos = q;
    }
}

/// The log contents corresponding to a pair of file contents read
/// from disk.
pub open spec fn loaded_log(old: Option<Vec<u8>>, current: Option<Vec<u8>>) -> PersistedLogV {
    PersistedLogV {
        current: match current {
            Some(c) => Some(c@),
            None => None,
        },
        old: match old {
            Some(o) => Some(o@),
            None => None,
        },
    }
}

impl StatsHistory {
    /// Rebuilds a statistics history from the persisted history files'
    /// contents (`None` for a file that does not exist). The resulting
    /// history's capacity equals the number of entries loaded; a
    /// malformed line in either file fails the whole load.
    pub fn load_from(old_contents: Option<Vec<u8>>, current_contents: Option<Vec<u8>>) -> (r:
        Result<StatsHistory, LoadError>)
        ensures
            match r {
                Ok(h) => {
                    &&& h.wf()
                    &&& load_spec(loaded_log(old_contents, current_contents)) is Some
                    &&& h.chronological() == load_spec(
                        loaded_log(old_contents, current_contents),
                    ).unwrap()
                    &&& h.capacity() == if h.chronological().len() == 0 {
                        1int
                    } else {
                        h.chronological().len() as int
                    }
                },
                Err(e) => load_spec(loaded_log(old_contents, current_contents)) is None,
            },
    {
        let log = PersistedLog::from_contents(current_contents, old_contents);
        proof {
            assert(log@ =~= loaded_log(old_contents, current_contents));
        }
        match log.load() {
            Ok(entries) => Ok(StatsHistory::from_entries(entries)),
            Err(e) => Err(e),
        }
    }
}

} // verus!
