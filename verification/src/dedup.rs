//! Subtitle deduplication: parse `.srt` content into cues, merge adjacent
//! cues with the same normalized text within a time tolerance, and render
//! the result back.

use vstd::prelude::*;
use crate::text::{
    collapse_ws, collapse_ws_chars, chars_eq, chars_string, dec_spec, find_sub, find_sub_from,
    is_ws, lemma_find_sub_from, matches_at, push_chars, push_dec, str_chars, subrange_chars,
    trim_chars, trim_end_chars, trim_end_spec, trim_spec,
};
use crate::timecode::{max_ts_ms, ms_to_timestamp, parse_ts, render_ts, timestamp_to_ms};

verus! {

/// What `str::to_lowercase` returns: a function of the characters alone.
pub uninterp spec fn lower_of(s: Seq<char>) -> Seq<char>;

/// Relies on `str::to_lowercase`: the result depends on the characters alone.
#[verifier::external_body]
pub(crate) fn lowercase(s: &str) -> (r: String)
    ensures
        r@ == lower_of(s@),
{
    s.to_lowercase()
}

pub open spec fn nl2() -> Seq<char> {
    seq!['\n', '\n']
}

pub open spec fn arrow() -> Seq<char> {
    seq!['-', '-', '>']
}

/// Line-ending normalization: each `\r\n` becomes `\n`, scanning left to
/// right without revisiting replaced text.
pub open spec fn normalize_nl(s: Seq<char>) -> Seq<char>
    decreases s.len(),
{
    if s.len() == 0 {
        Seq::empty()
    } else if s.len() >= 2 && s[0] == '\r' && s[1] == '\n' {
        seq!['\n'] + normalize_nl(s.skip(2))
    } else {
        seq![s[0]] + normalize_nl(s.skip(1))
    }
}

/// Split on a separator, leftmost occurrence first, non-overlapping.
pub open spec fn split_on(s: Seq<char>, sep: Seq<char>) -> Seq<Seq<char>>
    decreases s.len(),
{
    let i = find_sub_from(s, sep, 0);
    if sep.len() == 0 || i < 0 || i + sep.len() > s.len() {
        seq![s]
    } else {
        seq![s.subrange(0, i)] + split_on(s.subrange(i + sep.len(), s.len() as int), sep)
    }
}

/// One line as `str::lines` yields it: a trailing carriage return is removed.
pub open spec fn strip_cr(l: Seq<char>) -> Seq<char> {
    if l.len() > 0 && l.last() == '\r' {
        l.drop_last()
    } else {
        l
    }
}

/// What `str::lines` yields: split on `\n`, drop a final empty piece, strip
/// one trailing `\r` from each line.
pub open spec fn lines_of(s: Seq<char>) -> Seq<Seq<char>> {
    let parts = split_on(s, seq!['\n']);
    let kept = if parts.len() > 0 && parts.last().len() == 0 {
        parts.drop_last()
    } else {
        parts
    };
    kept.map_values(|l: Seq<char>| strip_cr(l))
}

/// Lines joined back with `\n`.
pub open spec fn join_nl(ls: Seq<Seq<char>>) -> Seq<char>
    decreases ls.len(),
{
    if ls.len() == 0 {
        Seq::empty()
    } else if ls.len() == 1 {
        ls[0]
    } else {
        ls[0] + seq!['\n'] + join_nl(ls.drop_first())
    }
}

/// The normalized comparison key of a cue text: whitespace runs collapsed to
/// single spaces, then case-folded.
pub open spec fn norm_of(text: Seq<char>) -> Seq<char> {
    lower_of(collapse_ws(text))
}

/// One timed subtitle entry.
#[verifier::ext_equal]
pub ghost struct CueS {
    pub start: int,
    pub end: int,
    pub text: Seq<char>,
    pub norm: Seq<char>,
}

/// Outcome of reading one block: not a cue (skipped), malformed timing
/// (fails the whole pass), or a cue.
#[verifier::ext_equal]
pub ghost enum BlockParse {
    Skip,
    Bad,
    Cue(CueS),
}

/// Read one blank-line-separated block: the first line is an index and is
/// ignored; the second must hold `-->` between two timestamps, else the
/// block is skipped; the remaining lines joined and trimmed are the text,
/// and a cue with empty text is skipped. A timestamp that fails to parse
/// poisons the whole pass.
pub open spec fn parse_block(b: Seq<char>) -> BlockParse {
    let ls = lines_of(b);
    if ls.len() < 2 {
        BlockParse::Skip
    } else {
        let timing = ls[1];
        let i = find_sub_from(timing, arrow(), 0);
        if i == timing.len() {
            BlockParse::Skip
        } else {
            let start_s = trim_spec(timing.subrange(0, i));
            let rest = timing.subrange(i + 3, timing.len() as int);
            let j = find_sub_from(rest, arrow(), 0);
            let end_s = trim_spec(rest.subrange(0, j));
            match (parse_ts(start_s), parse_ts(end_s)) {
                (Some(st), Some(en)) => {
                    let text = trim_spec(join_nl(ls.subrange(2, ls.len() as int)));
                    if text.len() == 0 {
                        BlockParse::Skip
                    } else {
                        BlockParse::Cue(CueS { start: st, end: en, text, norm: norm_of(text) })
                    }
                },
                _ => BlockParse::Bad,
            }
        }
    }
}

/// Read a sequence of blocks into cues; any malformed block fails the pass.
pub open spec fn parse_blocks(bs: Seq<Seq<char>>) -> Result<Seq<CueS>, ()>
    decreases bs.len(),
{
    if bs.len() == 0 {
        Ok(Seq::empty())
    } else {
        match parse_block(bs[0]) {
            BlockParse::Bad => Err(()),
            BlockParse::Skip => parse_blocks(bs.drop_first()),
            BlockParse::Cue(c) => match parse_blocks(bs.drop_first()) {
                Err(e) => Err(e),
                Ok(rest) => Ok(seq![c] + rest),
            },
        }
    }
}

/// Whether `cur` merges into `prev`: same normalized text, and `cur` starts
/// no later than `prev` ends plus the tolerance.
pub open spec fn mergeable(prev: CueS, cur: CueS, gap: int) -> bool {
    prev.norm == cur.norm && cur.start <= prev.end + gap
}

/// Fold one cue into the merged sequence: either extend the last cue's end
/// time (keeping its text and start) or append.
pub open spec fn merge_push(acc: Seq<CueS>, c: CueS, gap: int) -> Seq<CueS> {
    if acc.len() > 0 && mergeable(acc.last(), c, gap) {
        let last = acc.last();
        let end = if last.end >= c.end {
            last.end
        } else {
            c.end
        };
        acc.update(acc.len() - 1, CueS { end, ..last })
    } else {
        acc.push(c)
    }
}

/// The whole merge pass, walking the cues in order.
pub open spec fn merge_cues(cs: Seq<CueS>, gap: int) -> Seq<CueS>
    decreases cs.len(),
{
    if cs.len() == 0 {
        Seq::empty()
    } else {
        merge_push(merge_cues(cs.drop_last(), gap), cs.last(), gap)
    }
}

/// One rendered cue: index line, timing line, text, and a blank separator.
pub open spec fn render_cue(idx: int, c: CueS) -> Seq<char> {
    dec_spec(idx as nat) + seq!['\n'] + render_ts(c.start) + seq![' ', '-', '-', '>', ' ']
        + render_ts(c.end) + seq!['\n'] + c.text + seq!['\n', '\n']
}

/// Rendering of the cues from position `i` on, 1-indexed.
pub open spec fn render_cues_from(cs: Seq<CueS>, i: int) -> Seq<char>
    decreases cs.len() - i,
{
    if i < 0 || i >= cs.len() {
        Seq::empty()
    } else {
        render_cue(i + 1, cs[i]) + render_cues_from(cs, i + 1)
    }
}

pub open spec fn render_cues(cs: Seq<CueS>) -> Seq<char> {
    render_cues_from(cs, 0)
}

/// The file content written back: the rendering with trailing whitespace
/// trimmed, plus one final newline.
pub open spec fn dedup_output(cs: Seq<CueS>) -> Seq<char> {
    trim_end_spec(render_cues(cs)) + seq!['\n']
}

/// The whole content-to-content transform: `Ok(None)` when the (normalized)
/// content is blank and nothing is written; `Err` when a timing line is
/// malformed; otherwise the merged, re-indexed rendering.
pub open spec fn dedup_spec(content: Seq<char>, gap: int) -> Result<Option<Seq<char>>, ()> {
    let t = normalize_nl(content);
    if trim_spec(t).len() == 0 {
        Ok(None)
    } else {
        match parse_blocks(split_on(t, nl2())) {
            Err(e) => Err(e),
            Ok(cs) => Ok(Some(dedup_output(merge_cues(cs, gap)))),
        }
    }
}

/// The merged cues a content parses to (meaningful when parsing succeeds).
pub open spec fn dedup_cues(content: Seq<char>, gap: int) -> Seq<CueS> {
    match parse_blocks(split_on(normalize_nl(content), nl2())) {
        Ok(cs) => merge_cues(cs, gap),
        Err(_) => Seq::empty(),
    }
}

/// Executable cue with times in milliseconds.
pub struct Cue {
    pub start_ms: i64,
    pub end_ms: i64,
    pub text: Vec<char>,
    pub norm: Vec<char>,
}

impl View for Cue {
    type V = CueS;

    open spec fn view(&self) -> CueS {
        CueS { start: self.start_ms as int, end: self.end_ms as int, text: self.text@, norm: self.norm@ }
    }
}

/// The abstract cues of a cue vector.
pub open spec fn views(s: Seq<Cue>) -> Seq<CueS> {
    Seq::new(s.len(), |i: int| s[i]@)
}

/// A split always yields at least one piece.
pub proof fn lemma_split_on_len(s: Seq<char>, sep: Seq<char>)
    ensures
        split_on(s, sep).len() >= 1,
{
    let i = find_sub_from(s, sep, 0);
    if sep.len() == 0 || i < 0 || i + sep.len() > s.len() {
        assert(split_on(s, sep) == seq![s]);
    }
}

/// Executable line-ending normalization, equal to `normalize_nl`.
fn normalize_chars(s: &Vec<char>) -> (r: Vec<char>)
    ensures
        r@ == normalize_nl(s@),
{
    let n = s.len();
    let mut out: Vec<char> = Vec::new();
    let mut i: usize = 0;
    proof {
        assert(s@.skip(0) =~= s@);
        assert(out@ + normalize_nl(s@) =~= normalize_nl(s@));
    }
    while i < n
        invariant
            0 <= i <= n == s@.len(),
            normalize_nl(s@) == out@ + normalize_nl(s@.skip(i as int)),
        decreases n - i,
    {
        let ghost pre = s@.skip(i as int);
        if i + 1 < n && s[i] == '\r' && s[i + 1] == '\n' {
            out.push('\n');
            assert(pre.skip(2) =~= s@.skip(i + 2));
            assert(normalize_nl(pre) == seq!['\n'] + normalize_nl(s@.skip(i + 2)));
            assert(normalize_nl(s@) =~= out@ + normalize_nl(s@.skip(i + 2)));
            i = i + 2;
        } else {
            out.push(s[i]);
            assert(pre[0] == s@[i as int]);
            assert(pre.skip(1) =~= s@.skip(i + 1));
            assert(normalize_nl(pre) == seq![s@[i as int]] + normalize_nl(s@.skip(i + 1)));
            assert(normalize_nl(s@) =~= out@ + normalize_nl(s@.skip(i + 1)));
            i = i + 1;
        }
    }
    assert(s@.skip(n as int) =~= Seq::<char>::empty());
    assert(normalize_nl(s@) =~= out@);
    out
}

/// Executable split, matching `split_on` element for element.
fn split_on_exec(s: &Vec<char>, sep: &Vec<char>) -> (r: Vec<Vec<char>>)
    requires
        sep@.len() >= 1,
    ensures
        r@.len() == split_on(s@, sep@).len(),
        forall|j: int| 0 <= j < r@.len() ==> r@[j]@ == split_on(s@, sep@)[j],
    decreases s@.len(),
{
    let i = find_sub(s, sep, 0);
    proof {
        lemma_find_sub_from(s@, sep@, 0);
    }
    let mut r: Vec<Vec<char>> = Vec::new();
    if i == s.len() {
        let whole = subrange_chars(s, 0, s.len());
        assert(whole@ =~= s@);
        r.push(whole);
    } else {
        let head = subrange_chars(s, 0, i);
        let tail = subrange_chars(s, i + sep.len(), s.len());
        let mut rest = split_on_exec(&tail, sep);
        r.push(head);
        r.append(&mut rest);
        assert(split_on(s@, sep@) == seq![s@.subrange(0, i as int)] + split_on(tail@, sep@));
    }
    r
}

/// Executable `str::lines`, matching `lines_of` element for element.
fn lines_exec(s: &Vec<char>) -> (r: Vec<Vec<char>>)
    ensures
        r@.len() == lines_of(s@).len(),
        forall|j: int| 0 <= j < r@.len() ==> r@[j]@ == lines_of(s@)[j],
{
    let sep: Vec<char> = vec!['\n'];
    assert(sep@ =~= seq!['\n']);
    let mut parts = split_on_exec(s, &sep);
    let ghost sparts = split_on(s@, seq!['\n']);
    proof {
        lemma_split_on_len(s@, seq!['\n']);
    }
    let ghost kept = if sparts.len() > 0 && sparts.last().len() == 0 {
        sparts.drop_last()
    } else {
        sparts
    };
    assert(parts@[parts@.len() - 1]@ == sparts.last());
    if parts[parts.len() - 1].len() == 0 {
        let _ = parts.pop();
        assert(sparts.last().len() == 0);
        assert(parts@.len() == kept.len());
        assert(forall|j: int| 0 <= j < parts@.len() ==> parts@[j]@ == kept[j]);
    } else {
        assert(sparts.last().len() != 0);
        assert(parts@.len() == kept.len());
        assert(forall|j: int| 0 <= j < parts@.len() ==> parts@[j]@ == kept[j]);
    }
    let mut r: Vec<Vec<char>> = Vec::new();
    let n = parts.len();
    let mut i: usize = 0;
    while i < n
        invariant
            0 <= i <= n == parts@.len(),
            parts@.len() == kept.len(),
            forall|j: int| 0 <= j < parts@.len() ==> parts@[j]@ == kept[j],
            r@.len() == i,
            forall|j: int| 0 <= j < i ==> r@[j]@ == strip_cr(kept[j]),
        decreases n - i,
    {
        let p = &parts[i];
        let m = p.len();
        let line = if m > 0 && p[m - 1] == '\r' {
            subrange_chars(p, 0, m - 1)
        } else {
            subrange_chars(p, 0, m)
        };
        proof {
            if m > 0 && p@[m - 1] == '\r' {
                assert(line@ =~= strip_cr(kept[i as int]));
            } else {
                assert(line@ =~= p@);
                assert(line@ == strip_cr(kept[i as int]));
            }
        }
        r.push(line);
        i = i + 1;
    }
    assert(lines_of(s@) == kept.map_values(|l: Seq<char>| strip_cr(l)));
    r
}

proof fn lemma_join_push(ls: Seq<Seq<char>>, x: Seq<char>)
    ensures
        join_nl(ls.push(x)) == if ls.len() == 0 {
            x
        } else {
            join_nl(ls) + seq!['\n'] + x
        },
    decreases ls.len(),
{
    let p = ls.push(x);
    if ls.len() == 0 {
        assert(p.len() == 1);
        assert(p[0] == x);
    } else if ls.len() == 1 {
        assert(p.len() == 2);
        assert(p[0] == ls[0]);
        assert(p.drop_first() =~= seq![x]);
        assert(join_nl(seq![x]) == x);
        assert(join_nl(p) == p[0] + seq!['\n'] + join_nl(p.drop_first()));
        assert(join_nl(ls) == ls[0]);
    } else {
        lemma_join_push(ls.drop_first(), x);
        assert(p.drop_first() =~= ls.drop_first().push(x));
        assert(join_nl(p) == p[0] + seq!['\n'] + join_nl(ls.drop_first().push(x)));
        assert(p[0] == ls[0]);
        assert(join_nl(ls) == ls[0] + seq!['\n'] + join_nl(ls.drop_first()));
        assert(join_nl(p) =~= join_nl(ls) + seq!['\n'] + x);
    }
}

/// Join the lines from position `from` on with newlines.
fn join_from(ls: &Vec<Vec<char>>, from: usize) -> (r: Vec<char>)
    requires
        from <= ls@.len(),
    ensures
        r@ == join_nl(Seq::new((ls@.len() - from) as nat, |j: int| ls@[from + j]@)),
{
    let ghost tail = Seq::new((ls@.len() - from) as nat, |j: int| ls@[from + j]@);
    let mut r: Vec<char> = Vec::new();
    let n = ls.len();
    let mut i: usize = from;
    while i < n
        invariant
            from <= i <= n == ls@.len(),
            tail == Seq::new((ls@.len() - from) as nat, |j: int| ls@[from + j]@),
            r@ == join_nl(tail.subrange(0, i - from)),
        decreases n - i,
    {
        if i > from {
            r.push('\n');
        }
        push_chars(&mut r, &ls[i]);
        proof {
            let k = i - from;
            assert(tail.subrange(0, k + 1) =~= tail.subrange(0, k).push(ls@[i as int]@));
            lemma_join_push(tail.subrange(0, k), ls@[i as int]@);
            if k == 0 {
                assert(join_nl(tail.subrange(0, 1)) == ls@[i as int]@);
                assert(join_nl(tail.subrange(0, 0)) =~= Seq::<char>::empty());
                assert(r@ =~= join_nl(tail.subrange(0, k + 1)));
            } else {
                assert(r@ =~= join_nl(tail.subrange(0, k)) + seq!['\n'] + ls@[i as int]@);
            }
        }
        i = i + 1;
    }
    assert(tail.subrange(0, tail.len() as int) =~= tail);
    r
}

/// Read one block. `Ok(None)` skips it, `Ok(Some(cue))` yields its cue, and
/// `Err` reports a malformed timing line.
fn parse_block_exec(b: &Vec<char>) -> (r: Result<Option<Cue>, String>)
    ensures
        match r {
            Ok(None) => parse_block(b@) is Skip,
            Ok(Some(c)) => parse_block(b@) == BlockParse::Cue(c@) && c.start_ms >= 0 && c.end_ms
                >= 0,
            Err(e) => parse_block(b@) is Bad && e@ == "Invalid timestamp"@,
        },
{
    let ls = lines_exec(b);
    let ghost sls = lines_of(b@);
    if ls.len() < 2 {
        return Ok(None);
    }
    let timing = &ls[1];
    let arrow_v: Vec<char> = vec!['-', '-', '>'];
    assert(arrow_v@ =~= arrow());
    let i = find_sub(timing, &arrow_v, 0);
    proof {
        lemma_find_sub_from(timing@, arrow(), 0);
    }
    if i == timing.len() {
        return Ok(None);
    }
    let start_part = subrange_chars(timing, 0, i);
    let start_t = trim_chars(&start_part);
    let rest = subrange_chars(timing, i + 3, timing.len());
    let j = find_sub(&rest, &arrow_v, 0);
    proof {
        lemma_find_sub_from(rest@, arrow(), 0);
    }
    let end_part = subrange_chars(&rest, 0, j);
    let end_t = trim_chars(&end_part);
    let start_s = chars_string(&start_t);
    let end_s = chars_string(&end_t);
    let st = timestamp_to_ms(start_s.as_str());
    let en = timestamp_to_ms(end_s.as_str());
    match (st, en) {
        (Ok(st), Ok(en)) => {
            let joined = join_from(&ls, 2);
            proof {
                assert(Seq::new((ls@.len() - 2) as nat, |j: int| ls@[2 + j]@) =~= sls.subrange(
                    2,
                    sls.len() as int,
                ));
            }
            let text = trim_chars(&joined);
            if text.len() == 0 {
                Ok(None)
            } else {
                let collapsed = collapse_ws_chars(&text);
                let folded = lowercase(chars_string(&collapsed).as_str());
                let norm = str_chars(folded.as_str());
                Ok(Some(Cue { start_ms: st, end_ms: en, text, norm }))
            }
        },
        (Err(e), _) => Err(e),
        (_, Err(e)) => Err(e),
    }
}

/// Reading of the blocks from position `i` on.
pub open spec fn parse_blocks_from(bs: Seq<Seq<char>>, i: int) -> Result<Seq<CueS>, ()>
    decreases bs.len() - i,
{
    if i < 0 || i >= bs.len() {
        Ok(Seq::empty())
    } else {
        match parse_block(bs[i]) {
            BlockParse::Bad => Err(()),
            BlockParse::Skip => parse_blocks_from(bs, i + 1),
            BlockParse::Cue(c) => match parse_blocks_from(bs, i + 1) {
                Err(e) => Err(e),
                Ok(rest) => Ok(seq![c] + rest),
            },
        }
    }
}

pub proof fn lemma_parse_blocks_from(bs: Seq<Seq<char>>, i: int)
    requires
        0 <= i <= bs.len(),
    ensures
        parse_blocks_from(bs, i) == parse_blocks(bs.skip(i)),
    decreases bs.len() - i,
{
    let suf = bs.skip(i);
    if i < bs.len() {
        lemma_parse_blocks_from(bs, i + 1);
        assert(suf[0] == bs[i]);
        assert(suf.drop_first() =~= bs.skip(i + 1));
    } else {
        assert(suf =~= Seq::<Seq<char>>::empty());
    }
}

spec fn combine_parsed(done: Seq<CueS>, r: Result<Seq<CueS>, ()>) -> Result<Seq<CueS>, ()> {
    match r {
        Ok(rest) => Ok(done + rest),
        Err(e) => Err(e),
    }
}

/// Read all blocks; the first malformed timing line fails the pass.
fn parse_blocks_exec(blocks: &Vec<Vec<char>>) -> (r: Result<Vec<Cue>, String>)
    ensures
        ({
            let sbs = Seq::new(blocks@.len(), |j: int| blocks@[j]@);
            match r {
                Ok(cs) => parse_blocks(sbs) == Ok::<Seq<CueS>, ()>(views(cs@)) && (forall|j: int|
                    0 <= j < cs@.len() ==> cs@[j].start_ms >= 0 && cs@[j].end_ms >= 0),
                Err(e) => parse_blocks(sbs) is Err && e@ == "Invalid timestamp"@,
            }
        }),
{
    let ghost sbs = Seq::new(blocks@.len(), |j: int| blocks@[j]@);
    let mut acc: Vec<Cue> = Vec::new();
    let n = blocks.len();
    let mut i: usize = 0;
    proof {
        assert(views(acc@) =~= Seq::<CueS>::empty());
        assert(views(acc@) + Seq::<CueS>::empty() =~= Seq::<CueS>::empty());
        if parse_blocks_from(sbs, 0) is Ok {
            let rest = parse_blocks_from(sbs, 0)->Ok_0;
            assert(views(acc@) + rest =~= rest);
        }
    }
    while i < n
        invariant
            0 <= i <= n == blocks@.len(),
            sbs == Seq::new(blocks@.len(), |j: int| blocks@[j]@),
            forall|j: int| 0 <= j < acc@.len() ==> acc@[j].start_ms >= 0 && acc@[j].end_ms >= 0,
            combine_parsed(views(acc@), parse_blocks_from(sbs, i as int)) == parse_blocks_from(
                sbs,
                0,
            ),
        decreases n - i,
    {
        let ghost done = views(acc@);
        proof {
            assert(sbs[i as int] == blocks@[i as int]@);
        }
        match parse_block_exec(&blocks[i]) {
            Err(e) => {
                proof {
                    assert(parse_blocks_from(sbs, i as int) is Err);
                    assert(parse_blocks_from(sbs, 0) is Err);
                    lemma_parse_blocks_from(sbs, 0);
                    assert(sbs.skip(0) =~= sbs);
                }
                return Err(e);
            },
            Ok(None) => {
                proof {
                    assert(parse_blocks_from(sbs, i as int) == parse_blocks_from(sbs, i + 1));
                }
            },
            Ok(Some(c)) => {
                let ghost cv = c@;
                acc.push(c);
                proof {
                    assert(views(acc@) =~= done.push(cv));
                    if parse_blocks_from(sbs, i + 1) is Ok {
                        let rest = parse_blocks_from(sbs, i + 1)->Ok_0;
                        assert(parse_blocks_from(sbs, i as int) == Ok::<Seq<CueS>, ()>(
                            seq![cv] + rest,
                        ));
                        assert(done + (seq![cv] + rest) =~= done.push(cv) + rest);
                        assert(combine_parsed(done.push(cv), parse_blocks_from(sbs, i + 1))
                            == combine_parsed(done, parse_blocks_from(sbs, i as int)));
                    } else {
                        assert(parse_blocks_from(sbs, i as int) is Err);
                    }
                }
            },
        }
        i = i + 1;
    }
    proof {
        assert(parse_blocks_from(sbs, n as int) == Ok::<Seq<CueS>, ()>(Seq::empty()));
        assert(views(acc@) + Seq::<CueS>::empty() =~= views(acc@));
        lemma_parse_blocks_from(sbs, 0);
        assert(sbs.skip(0) =~= sbs);
    }
    Ok(acc)
}

fn copy_chars(s: &Vec<char>) -> (r: Vec<char>)
    ensures
        r@ == s@,
{
    let r = subrange_chars(s, 0, s.len());
    assert(r@ =~= s@);
    r
}

/// The merge pass over parsed cues.
fn merge_exec(cues: &Vec<Cue>, gap: i64) -> (r: Vec<Cue>)
    requires
        forall|j: int| 0 <= j < cues@.len() ==> cues@[j].start_ms >= 0 && cues@[j].end_ms >= 0,
    ensures
        views(r@) == merge_cues(views(cues@), gap as int),
        forall|j: int| 0 <= j < r@.len() ==> r@[j].start_ms >= 0 && r@[j].end_ms >= 0,
{
    let ghost scs = views(cues@);
    let mut merged: Vec<Cue> = Vec::new();
    let n = cues.len();
    let mut i: usize = 0;
    while i < n
        invariant
            0 <= i <= n == cues@.len(),
            scs == views(cues@),
            forall|j: int| 0 <= j < cues@.len() ==> cues@[j].start_ms >= 0 && cues@[j].end_ms >= 0,
            forall|j: int| 0 <= j < merged@.len() ==> merged@[j].start_ms >= 0 && merged@[j].end_ms
                >= 0,
            views(merged@) == merge_cues(scs.subrange(0, i as int), gap as int),
        decreases n - i,
    {
        let ghost pre = scs.subrange(0, i as int);
        let ghost cur = scs.subrange(0, i + 1);
        proof {
            assert(cur.drop_last() =~= pre);
            assert(cur.last() == cues@[i as int]@);
            assert(merge_cues(cur, gap as int) == merge_push(
                merge_cues(pre, gap as int),
                cues@[i as int]@,
                gap as int,
            ));
        }
        let c = Cue {
            start_ms: cues[i].start_ms,
            end_ms: cues[i].end_ms,
            text: copy_chars(&cues[i].text),
            norm: copy_chars(&cues[i].norm),
        };
        assert(c@ == cues@[i as int]@);
        let m = merged.len();
        let mut did = false;
        if m > 0 {
            let same = chars_eq(&merged[m - 1].norm, &c.norm);
            if same && (c.start_ms as i128) <= (merged[m - 1].end_ms as i128) + (gap as i128) {
                let mut last = merged.pop().unwrap();
                let new_end = if last.end_ms >= c.end_ms {
                    last.end_ms
                } else {
                    c.end_ms
                };
                let ghost lastv = last@;
                last.end_ms = new_end;
                merged.push(last);
                did = true;
                proof {
                    assert(mergeable(lastv, c@, gap as int));
                    assert(views(merged@) =~= merge_push(
                        views(merged@.drop_last()).push(lastv),
                        c@,
                        gap as int,
                    ));
                    assert(views(merged@.drop_last()).push(lastv) =~= merge_cues(
                        pre,
                        gap as int,
                    ));
                }
            } else {
                proof {
                    assert(!mergeable(merge_cues(pre, gap as int).last(), c@, gap as int));
                }
            }
        }
        if !did {
            merged.push(c);
            assert(views(merged@) =~= merge_push(
                views(merged@.drop_last()),
                merged@.last()@,
                gap as int,
            ));
        }
        assert(views(merged@) == merge_cues(cur, gap as int));
        i = i + 1;
    }
    assert(scs.subrange(0, n as int) =~= scs);
    merged
}

/// Render the merged cues, 1-indexed.
#[verifier::rlimit(50)]
fn render_exec(cs: &Vec<Cue>) -> (r: Vec<char>)
    requires
        forall|j: int| 0 <= j < cs@.len() ==> cs@[j].start_ms >= 0 && cs@[j].end_ms >= 0,
    ensures
        r@ == render_cues(views(cs@)),
{
    let ghost scs = views(cs@);
    let mut out: Vec<char> = Vec::new();
    let n = cs.len();
    let mut i: usize = 0;
    proof {
        assert(out@ + render_cues_from(scs, 0) =~= render_cues_from(scs, 0));
    }
    while i < n
        invariant
            0 <= i <= n == cs@.len(),
            scs == views(cs@),
            forall|j: int| 0 <= j < cs@.len() ==> cs@[j].start_ms >= 0 && cs@[j].end_ms >= 0,
            render_cues(scs) == out@ + render_cues_from(scs, i as int),
        decreases n - i,
    {
        let ghost c = scs[i as int];
        let mut blk: Vec<char> = Vec::new();
        push_dec((i as u64) + 1, &mut blk);
        let ghost p1 = dec_spec((i + 1) as nat);
        assert(blk@ == p1);
        blk.push('\n');
        let ghost p2 = p1 + seq!['\n'];
        assert(blk@ =~= p2);
        let sts = ms_to_timestamp(cs[i].start_ms);
        let stv = str_chars(sts.as_str());
        push_chars(&mut blk, &stv);
        let ghost p3 = p2 + render_ts(c.start);
        assert(blk@ == p3);
        blk.push(' ');
        blk.push('-');
        blk.push('-');
        blk.push('>');
        blk.push(' ');
        let ghost p4 = p3 + seq![' ', '-', '-', '>', ' '];
        assert(blk@ =~= p4);
        let ets = ms_to_timestamp(cs[i].end_ms);
        let etv = str_chars(ets.as_str());
        push_chars(&mut blk, &etv);
        let ghost p5 = p4 + render_ts(c.end);
        assert(blk@ == p5);
        blk.push('\n');
        let ghost p6 = p5 + seq!['\n'];
        assert(blk@ =~= p6);
        push_chars(&mut blk, &cs[i].text);
        let ghost p7 = p6 + c.text;
        assert(blk@ == p7);
        blk.push('\n');
        blk.push('\n');
        let ghost p8 = p7 + seq!['\n', '\n'];
        assert(blk@ =~= p8);
        proof {
            assert(p8 =~= render_cue(i + 1, c));
        }
        let ghost before = out@;
        push_chars(&mut out, &blk);
        proof {
            assert(render_cues_from(scs, i as int) == render_cue(i + 1, c) + render_cues_from(
                scs,
                i + 1,
            ));
            assert(before + (render_cue(i + 1, c) + render_cues_from(scs, i + 1)) =~= (before
                + render_cue(i + 1, c)) + render_cues_from(scs, i + 1));
        }
        i = i + 1;
    }
    assert(render_cues_from(scs, n as int) =~= Seq::<char>::empty());
    assert(out@ =~= render_cues(scs));
    out
}

/// Two adjacent cues with the same normalized text within the tolerance
/// merge into one cue keeping the first one's text and start time and the
/// larger end time; beyond the tolerance (or with different text) both stay.
pub proof fn lemma_merge_pair(a: CueS, b: CueS, gap: int)
    ensures
        mergeable(a, b, gap) ==> merge_cues(seq![a, b], gap) == seq![
            CueS {
                end: if a.end >= b.end {
                    a.end
                } else {
                    b.end
                },
                ..a
            },
        ],
        !mergeable(a, b, gap) ==> merge_cues(seq![a, b], gap) == seq![a, b],
{
    let p = seq![a, b];
    assert(merge_cues(Seq::<CueS>::empty(), gap) == Seq::<CueS>::empty());
    assert(seq![a].drop_last() =~= Seq::<CueS>::empty());
    assert(seq![a].last() == a);
    assert(merge_cues(seq![a], gap) == merge_push(merge_cues(seq![a].drop_last(), gap), a, gap));
    assert(merge_push(Seq::<CueS>::empty(), a, gap) =~= seq![a]);
    assert(p.drop_last() =~= seq![a]);
    assert(p.last() == b);
    assert(merge_cues(p, gap) == merge_push(merge_cues(p.drop_last(), gap), b, gap));
    assert(merge_cues(p.drop_last(), gap) == seq![a]);
    if mergeable(a, b, gap) {
        let m = CueS {
            end: if a.end >= b.end {
                a.end
            } else {
                b.end
            },
            ..a
        };
        assert(merge_push(seq![a], b, gap) =~= seq![m]);
    } else {
        assert(merge_push(seq![a], b, gap) =~= seq![a, b]);
    }
}

/// No two adjacent cues of a merged sequence still satisfy the merge
/// predicate.
pub proof fn lemma_merge_no_adjacent(cs: Seq<CueS>, gap: int)
    ensures
        forall|k: int|
            0 <= k < merge_cues(cs, gap).len() - 1 ==> !mergeable(
                #[trigger] merge_cues(cs, gap)[k],
                merge_cues(cs, gap)[k + 1],
                gap,
            ),
    decreases cs.len(),
{
    if cs.len() > 0 {
        lemma_merge_no_adjacent(cs.drop_last(), gap);
        let acc = merge_cues(cs.drop_last(), gap);
        let c = cs.last();
        let out = merge_cues(cs, gap);
        assert(out == merge_push(acc, c, gap));
        if acc.len() > 0 && mergeable(acc.last(), c, gap) {
            assert(forall|k: int|
                0 <= k < out.len() - 1 ==> #[trigger] out[k] == acc[k]);
            assert(out.len() == acc.len());
            assert(out[out.len() - 1].norm == acc[acc.len() - 1].norm);
            assert(out[out.len() - 1].start == acc[acc.len() - 1].start);
            assert forall|k: int| 0 <= k < out.len() - 1 implies !mergeable(
                #[trigger] out[k],
                out[k + 1],
                gap,
            ) by {
                if k + 1 == out.len() - 1 {
                    assert(!mergeable(acc[k], acc[k + 1], gap));
                    assert(out[k + 1].norm == acc[k + 1].norm);
                    assert(out[k + 1].start == acc[k + 1].start);
                    assert(out[k].end == acc[k].end);
                } else {
                    assert(!mergeable(acc[k], acc[k + 1], gap));
                }
            }
        } else {
            assert(out == acc.push(c));
            assert forall|k: int| 0 <= k < out.len() - 1 implies !mergeable(
                #[trigger] out[k],
                out[k + 1],
                gap,
            ) by {
                if k + 1 == out.len() - 1 {
                    assert(out[k] == acc.last());
                    assert(out[k + 1] == c);
                } else {
                    assert(!mergeable(acc[k], acc[k + 1], gap));
                }
            }
        }
    }
}

/// A sequence with no adjacent mergeable pair merges to itself.
pub proof fn lemma_merge_of_settled(cs: Seq<CueS>, gap: int)
    requires
        forall|k: int|
            0 <= k < cs.len() - 1 ==> !mergeable(#[trigger] cs[k], cs[k + 1], gap),
    ensures
        merge_cues(cs, gap) == cs,
    decreases cs.len(),
{
    if cs.len() > 0 {
        let pre = cs.drop_last();
        assert(forall|k: int|
            0 <= k < pre.len() - 1 ==> !mergeable(#[trigger] pre[k], pre[k + 1], gap));
        lemma_merge_of_settled(pre, gap);
        if pre.len() > 0 {
            assert(!mergeable(cs[cs.len() - 2], cs[cs.len() - 1], gap));
            assert(pre.last() == cs[cs.len() - 2]);
        }
        assert(merge_push(pre, cs.last(), gap) == pre.push(cs.last()));
        assert(pre.push(cs.last()) =~= cs);
    } else {
        assert(cs =~= Seq::<CueS>::empty());
    }
}

/// Merging is idempotent: a second pass over merged cues changes nothing.
pub proof fn lemma_merge_idempotent(cs: Seq<CueS>, gap: int)
    ensures
        merge_cues(merge_cues(cs, gap), gap) == merge_cues(cs, gap),
{
    lemma_merge_no_adjacent(cs, gap);
    lemma_merge_of_settled(merge_cues(cs, gap), gap);
}

/// A text in which `\r\n` does not occur normalizes to itself.
proof fn lemma_normalize_identity(s: Seq<char>)
    requires
        forall|j: int| 0 <= j < s.len() - 1 ==> !(#[trigger] s[j] == '\r' && s[j + 1] == '\n'),
    ensures
        normalize_nl(s) == s,
    decreases s.len(),
{
    if s.len() > 0 {
        assert(!(s.len() >= 2 && s[0] == '\r' && s[1] == '\n'));
        let t = s.skip(1);
        assert(forall|j: int| 0 <= j < t.len() - 1 ==> #[trigger] t[j] == s[j + 1] && t[j + 1] == s[j + 2]);
        lemma_normalize_identity(t);
        assert(normalize_nl(s) == seq![s[0]] + t);
        assert(seq![s[0]] + t =~= s);
    } else {
        assert(normalize_nl(s) =~= s);
    }
}

/// `find_sub_from` returns `at` when `at` holds the first occurrence.
proof fn lemma_find_sub_hit(s: Seq<char>, pat: Seq<char>, from: int, at: int)
    requires
        pat.len() >= 1,
        0 <= from <= at,
        at + pat.len() <= s.len(),
        matches_at(s, pat, at),
        forall|j: int| from <= j < at ==> !matches_at(s, pat, j),
    ensures
        find_sub_from(s, pat, from) == at,
{
    lemma_find_sub_from(s, pat, from);
    let f = find_sub_from(s, pat, from);
    if f > at {
        assert(!matches_at(s, pat, at));
    }
}

/// `find_sub_from` returns the length when the pattern does not occur.
proof fn lemma_find_sub_miss(s: Seq<char>, pat: Seq<char>, from: int)
    requires
        pat.len() >= 1,
        0 <= from <= s.len(),
        forall|j: int| from <= j < s.len() ==> !matches_at(s, pat, j),
    ensures
        find_sub_from(s, pat, from) == s.len(),
{
    lemma_find_sub_from(s, pat, from);
    let f = find_sub_from(s, pat, from);
    if f + pat.len() <= s.len() {
        assert(!matches_at(s, pat, f));
    }
}

/// A separator-free text splits to itself alone.
proof fn lemma_split_on_miss(s: Seq<char>, sep: Seq<char>)
    requires
        sep.len() >= 1,
        forall|j: int| 0 <= j < s.len() ==> !matches_at(s, sep, j),
    ensures
        split_on(s, sep) == seq![s],
{
    lemma_find_sub_miss(s, sep, 0);
}

/// Splitting at a known first occurrence.
proof fn lemma_split_on_first(s: Seq<char>, sep: Seq<char>, a: int)
    requires
        sep.len() >= 1,
        0 <= a,
        a + sep.len() <= s.len(),
        matches_at(s, sep, a),
        forall|j: int| 0 <= j < a ==> !matches_at(s, sep, j),
    ensures
        split_on(s, sep) == seq![s.subrange(0, a)] + split_on(
            s.subrange(a + sep.len(), s.len() as int),
            sep,
        ),
{
    lemma_find_sub_hit(s, sep, 0, a);
}

/// Prepending a newline-free line shifts the newline split by one piece.
proof fn lemma_split_prepend_line(l: Seq<char>, rest: Seq<char>)
    requires
        forall|j: int| 0 <= j < l.len() ==> l[j] != '\n',
    ensures
        split_on(l + seq!['\n'] + rest, seq!['\n']) == seq![l] + split_on(rest, seq!['\n']),
{
    let s = l + seq!['\n'] + rest;
    let a = l.len() as int;
    assert(s.len() == l.len() + 1 + rest.len());
    assert(s[a] == '\n');
    assert(matches_at(s, seq!['\n'], a)) by {
        assert(s.subrange(a, a + 1) =~= seq!['\n']);
    }
    assert forall|j: int| 0 <= j < a implies !matches_at(s, seq!['\n'], j) by {
        assert(s[j] == l[j]);
        if matches_at(s, seq!['\n'], j) {
            assert(s.subrange(j, j + 1)[0] == s[j]);
        }
    }
    lemma_split_on_first(s, seq!['\n'], a);
    assert(s.subrange(0, a) =~= l);
    assert(s.subrange(a + 1, s.len() as int) =~= rest);
}

/// Appending a newline appends one empty piece to the newline split.
proof fn lemma_split_append_nl(x: Seq<char>)
    ensures
        split_on(x + seq!['\n'], seq!['\n']) == split_on(x, seq!['\n']).push(Seq::empty()),
    decreases x.len(),
{
    let s = x + seq!['\n'];
    lemma_find_nl(x);
    let i = find_char_nl_first(x);
    if i == x.len() {
        // no newline in x: the appended one is the first
        assert forall|j: int| 0 <= j < x.len() implies !matches_at(s, seq!['\n'], j) by {
            assert(s[j] == x[j]);
            if matches_at(s, seq!['\n'], j) {
                assert(s.subrange(j, j + 1)[0] == s[j]);
            }
        }
        assert(matches_at(s, seq!['\n'], x.len() as int)) by {
            assert(s.subrange(x.len() as int, x.len() as int + 1) =~= seq!['\n']);
        }
        lemma_split_on_first(s, seq!['\n'], x.len() as int);
        assert(s.subrange(0, x.len() as int) =~= x);
        assert(s.subrange(x.len() as int + 1, s.len() as int) =~= Seq::<char>::empty());
        assert(split_on(Seq::<char>::empty(), seq!['\n']) == seq![Seq::<char>::empty()]) by {
            lemma_split_on_miss(Seq::empty(), seq!['\n']);
        }
        assert forall|j: int| 0 <= j < x.len() implies !matches_at(x, seq!['\n'], j) by {
            if matches_at(x, seq!['\n'], j) {
                assert(x.subrange(j, j + 1)[0] == x[j]);
            }
        }
        lemma_split_on_miss(x, seq!['\n']);
        assert(split_on(s, seq!['\n']) =~= split_on(x, seq!['\n']).push(Seq::empty()));
    } else {
        assert(0 <= i < x.len() && x[i] == '\n');
        assert(forall|j: int| 0 <= j < i ==> x[j] != '\n');
        assert(matches_at(x, seq!['\n'], i)) by {
            assert(x.subrange(i, i + 1) =~= seq!['\n']);
        }
        assert forall|j: int| 0 <= j < i implies !matches_at(x, seq!['\n'], j) by {
            if matches_at(x, seq!['\n'], j) {
                assert(x.subrange(j, j + 1)[0] == x[j]);
            }
        }
        lemma_split_on_first(x, seq!['\n'], i);
        assert(matches_at(s, seq!['\n'], i)) by {
            assert(s.subrange(i, i + 1) =~= seq!['\n']);
        }
        assert forall|j: int| 0 <= j < i implies !matches_at(s, seq!['\n'], j) by {
            assert(s[j] == x[j]);
            if matches_at(s, seq!['\n'], j) {
                assert(s.subrange(j, j + 1)[0] == s[j]);
            }
        }
        lemma_split_on_first(s, seq!['\n'], i);
        let xt = x.subrange(i + 1, x.len() as int);
        lemma_split_append_nl(xt);
        assert(s.subrange(i + 1, s.len() as int) =~= xt + seq!['\n']);
        assert(s.subrange(0, i) =~= x.subrange(0, i));
        assert(split_on(s, seq!['\n']) =~= split_on(x, seq!['\n']).push(Seq::empty()));
    }
}

/// First newline position in `s` (`s.len()` if none).
spec fn find_char_nl_first(s: Seq<char>) -> int {
    crate::text::find_char_from(s, '\n', 0)
}

proof fn lemma_find_nl(s: Seq<char>)
    ensures
        0 <= find_char_nl_first(s) <= s.len(),
        forall|j: int| 0 <= j < find_char_nl_first(s) ==> s[j] != '\n',
        find_char_nl_first(s) < s.len() ==> s[find_char_nl_first(s)] == '\n',
{
    crate::text::lemma_find_char_from(s, '\n', 0);
}

/// A clean, trimmed, nonempty text splits into lines that carry no stray
/// carriage returns, the last line nonempty, and joins back to itself.
#[verifier::rlimit(60)]
proof fn lemma_text_lines_roundtrip(text: Seq<char>)
    requires
        text.len() > 0,
        text.last() != '\n',
        text.last() != '\r',
        forall|j: int| 0 <= j < text.len() - 1 ==> !(#[trigger] text[j] == '\r' && text[j + 1] == '\n'),
        forall|j: int| 0 <= j < text.len() - 1 ==> !(#[trigger] text[j] == '\n' && text[j + 1] == '\n'),
    ensures
        split_on(text, seq!['\n']).last().len() > 0,
        join_nl(split_on(text, seq!['\n']).map_values(|l: Seq<char>| strip_cr(l))) == text,
    decreases text.len(),
{
    lemma_find_nl(text);
    let i = find_char_nl_first(text);
    if i == text.len() {
        assert forall|j: int| 0 <= j < text.len() implies !matches_at(text, seq!['\n'], j) by {
            if matches_at(text, seq!['\n'], j) {
                assert(text.subrange(j, j + 1)[0] == text[j]);
            }
        }
        lemma_split_on_miss(text, seq!['\n']);
        let parts = split_on(text, seq!['\n']);
        assert(parts == seq![text]);
        assert(strip_cr(text) == text);
        assert(parts.map_values(|l: Seq<char>| strip_cr(l)) =~= seq![text]);
        assert(join_nl(seq![text]) == text);
    } else {
        assert(text[i] == '\n');
        assert(i < text.len() - 1);
        let h = text.subrange(0, i);
        let t = text.subrange(i + 1, text.len() as int);
        assert(t.len() > 0);
        assert(text =~= h + seq!['\n'] + t);
        assert(forall|j: int| 0 <= j < h.len() ==> h[j] == text[j]);
        lemma_split_prepend_line(h, t);
        assert(split_on(text, seq!['\n']) == seq![h] + split_on(t, seq!['\n']));
        assert(t.last() == text.last());
        assert(forall|j: int| 0 <= j < t.len() ==> t[j] == text[i + 1 + j]);
        assert(forall|j: int| 0 <= j < t.len() - 1 ==> !(#[trigger] t[j] == '\r' && t[j + 1] == '\n'));
        assert(forall|j: int| 0 <= j < t.len() - 1 ==> !(#[trigger] t[j] == '\n' && t[j + 1] == '\n'));
        lemma_text_lines_roundtrip(t);
        let parts = split_on(text, seq!['\n']);
        let tparts = split_on(t, seq!['\n']);
        assert(tparts.len() >= 1) by {
            lemma_split_on_len(t, seq!['\n']);
        }
        assert(parts.last() == tparts.last());
        // the head line keeps no trailing carriage return
        assert(strip_cr(h) == h) by {
            if h.len() > 0 && h.last() == '\r' {
                assert(text[i - 1] == '\r' && text[i] == '\n');
            }
        }
        let mapped = parts.map_values(|l: Seq<char>| strip_cr(l));
        let tmapped = tparts.map_values(|l: Seq<char>| strip_cr(l));
        assert(mapped =~= seq![h] + tmapped);
        assert(tmapped.len() >= 1);
        assert(join_nl(seq![h] + tmapped) == h + seq!['\n'] + join_nl(tmapped)) by {
            let w = seq![h] + tmapped;
            assert(w[0] == h);
            assert(w.drop_first() =~= tmapped);
            assert(w.len() >= 2);
        }
        assert(h + seq!['\n'] + join_nl(tmapped) =~= text);
    }
}

/// A string equal to its own trim has clean ends.
proof fn lemma_trimmed_ends(s: Seq<char>)
    requires
        trim_spec(s) == s,
        s.len() > 0,
    ensures
        !is_ws(s[0]),
        !is_ws(s.last()),
{
    let a = crate::text::idx_first_non_ws(s, 0);
    let b = crate::text::idx_after_last_non_ws(s, s.len() as int);
    crate::text::lemma_idx_bounds_pub(s);
    if a <= b {
        assert(trim_spec(s) == s.subrange(a, b));
        assert(s.subrange(a, b).len() == b - a);
        assert(b - a == s.len());
        assert(a == 0 && b == s.len());
    } else {
        assert(trim_spec(s).len() == 0);
    }
}

/// Trimming is idempotent.
proof fn lemma_trim_idempotent(s: Seq<char>)
    ensures
        trim_spec(trim_spec(s)) == trim_spec(s),
{
    let t = trim_spec(s);
    if t.len() == 0 {
        crate::text::lemma_trim_empty(t);
        assert(trim_spec(t) =~= t);
    } else {
        lemma_trim_of_trimmed(s);
        crate::text::lemma_trim_of_clean(t);
    }
}

/// The trim of any string has clean ends (when nonempty).
proof fn lemma_trim_of_trimmed(s: Seq<char>)
    requires
        trim_spec(s).len() > 0,
    ensures
        !is_ws(trim_spec(s)[0]),
        !is_ws(trim_spec(s).last()),
{
    let a = crate::text::idx_first_non_ws(s, 0);
    let b = crate::text::idx_after_last_non_ws(s, s.len() as int);
    crate::text::lemma_idx_bounds_pub(s);
    assert(a <= b);
    assert(trim_spec(s) == s.subrange(a, b));
    assert(a < s.len());
    assert(trim_spec(s)[0] == s[a]);
    assert(trim_spec(s).last() == s[b - 1]);
}

/// A well-formed cue: representable times, nonempty trimmed text, and the
/// normalized key derived from the text. Every cue that parsing yields is
/// well formed, and merging preserves it.
pub open spec fn wf_cue(c: CueS) -> bool {
    &&& 0 <= c.start <= max_ts_ms()
    &&& 0 <= c.end <= max_ts_ms()
    &&& c.text.len() > 0
    &&& trim_spec(c.text) == c.text
    &&& c.norm == norm_of(c.text)
}

/// A cue text in which neither `\r\n` nor a blank line occurs; only such
/// texts survive a rendering round trip unchanged.
pub open spec fn cue_text_clean(c: CueS) -> bool {
    &&& forall|j: int|
        0 <= j < c.text.len() - 1 ==> !(#[trigger] c.text[j] == '\r' && c.text[j + 1] == '\n')
    &&& forall|j: int|
        0 <= j < c.text.len() - 1 ==> !(#[trigger] c.text[j] == '\n' && c.text[j + 1] == '\n')
}

proof fn lemma_parse_block_wf(b: Seq<char>)
    ensures
        parse_block(b) matches BlockParse::Cue(c) ==> wf_cue(c),
{
    if parse_block(b) is Cue {
        let ls = lines_of(b);
        let timing = ls[1];
        let i = find_sub_from(timing, arrow(), 0);
        let start_s = trim_spec(timing.subrange(0, i));
        let rest = timing.subrange(i + 3, timing.len() as int);
        let j = find_sub_from(rest, arrow(), 0);
        let end_s = trim_spec(rest.subrange(0, j));
        crate::timecode::lemma_parse_ts_range(start_s);
        crate::timecode::lemma_parse_ts_range(end_s);
        let joined = join_nl(ls.subrange(2, ls.len() as int));
        lemma_trim_idempotent(joined);
    }
}

proof fn lemma_parse_blocks_wf(bs: Seq<Seq<char>>)
    ensures
        parse_blocks(bs) matches Ok(cs) ==> forall|k: int|
            0 <= k < cs.len() ==> wf_cue(#[trigger] cs[k]),
    decreases bs.len(),
{
    if bs.len() > 0 {
        lemma_parse_block_wf(bs[0]);
        lemma_parse_blocks_wf(bs.drop_first());
        if parse_blocks(bs) is Ok && parse_block(bs[0]) is Cue {
            let c = parse_block(bs[0])->Cue_0;
            let rest = parse_blocks(bs.drop_first())->Ok_0;
            let cs = parse_blocks(bs)->Ok_0;
            assert(cs == seq![c] + rest);
            assert forall|k: int| 0 <= k < cs.len() implies wf_cue(#[trigger] cs[k]) by {
                if k > 0 {
                    assert(cs[k] == rest[k - 1]);
                }
            }
        }
    }
}

proof fn lemma_merge_wf(cs: Seq<CueS>, gap: int)
    requires
        forall|k: int| 0 <= k < cs.len() ==> wf_cue(#[trigger] cs[k]),
    ensures
        forall|k: int|
            0 <= k < merge_cues(cs, gap).len() ==> wf_cue(#[trigger] merge_cues(cs, gap)[k]),
    decreases cs.len(),
{
    if cs.len() > 0 {
        let pre = cs.drop_last();
        assert(forall|k: int| 0 <= k < pre.len() ==> wf_cue(#[trigger] pre[k]));
        lemma_merge_wf(pre, gap);
        let acc = merge_cues(pre, gap);
        let c = cs.last();
        assert(wf_cue(c));
        let out = merge_cues(cs, gap);
        if acc.len() > 0 && mergeable(acc.last(), c, gap) {
            assert forall|k: int| 0 <= k < out.len() implies wf_cue(#[trigger] out[k]) by {
                if k == out.len() - 1 {
                    assert(wf_cue(acc[k]));
                } else {
                    assert(out[k] == acc[k]);
                }
            }
        } else {
            assert forall|k: int| 0 <= k < out.len() implies wf_cue(#[trigger] out[k]) by {
                if k < out.len() - 1 {
                    assert(out[k] == acc[k]);
                }
            }
        }
    }
}

/// One block as it stands in the output, without its blank-line separator.
pub open spec fn cue_body(idx: int, c: CueS) -> Seq<char> {
    dec_spec(idx as nat) + seq!['\n'] + render_ts(c.start) + seq![' ', '-', '-', '>', ' ']
        + render_ts(c.end) + seq!['\n'] + c.text
}

/// A digit, colon, or comma — what a rendered timestamp consists of.
spec fn ts_char(ch: char) -> bool {
    crate::text::is_digit(ch) || ch == ':' || ch == ','
}

/// Character-level facts about a rendered block body.
#[verifier::rlimit(100)]
proof fn lemma_body_chars(idx: int, c: CueS)
    requires
        1 <= idx,
        wf_cue(c),
        cue_text_clean(c),
    ensures
        ({
            let body = cue_body(idx, c);
            &&& body.len() >= 3
            &&& crate::text::is_digit(body[0])
            &&& body.last() == c.text.last()
            &&& !is_ws(body.last())
            &&& forall|j: int| 0 <= j < body.len() - 1 ==> !matches_at(body, nl2(), j)
            &&& forall|j: int|
                0 <= j < body.len() - 1 ==> !(#[trigger] body[j] == '\r' && body[j + 1] == '\n')
        }),
{
    let body = cue_body(idx, c);
    let d = dec_spec(idx as nat);
    let a = render_ts(c.start);
    let b = render_ts(c.end);
    let mid = seq![' ', '-', '-', '>', ' '];
    crate::text::lemma_dec_spec_digits(idx as nat);
    crate::timecode::lemma_render_then_parse(c.start);
    crate::timecode::lemma_render_then_parse(c.end);
    lemma_trimmed_ends(c.text);
    let p0 = d.len() as int;
    let p1 = p0 + 1 + a.len() + 5 + b.len();
    assert(body.len() == p1 + 1 + c.text.len());
    assert forall|j: int| 0 <= j < body.len() implies body_char_ok(body, d, a, b, c.text, j) by {
        if j < p0 {
            assert(body[j] == d[j]);
            assert(crate::text::is_digit(d[j]));
        } else if j == p0 {
            assert(body[j] == '\n');
        } else if j < p0 + 1 + a.len() {
            assert(body[j] == a[j - p0 - 1]);
        } else if j < p0 + 1 + a.len() + 5 {
            assert(body[j] == mid[j - p0 - 1 - a.len()]);
        } else if j < p1 {
            assert(body[j] == b[j - p0 - 1 - a.len() - 5]);
        } else if j == p1 {
            assert(body[j] == '\n');
        } else {
            assert(body[j] == c.text[j - p1 - 1]);
        }
    }
    assert(body[0] == d[0]);
    assert(body.last() == c.text.last());
    assert forall|j: int| 0 <= j < body.len() - 1 implies !matches_at(body, nl2(), j) by {
        if matches_at(body, nl2(), j) {
            assert(body.subrange(j, j + 2)[0] == body[j]);
            assert(body.subrange(j, j + 2)[1] == body[j + 1]);
            assert(body[j] == '\n' && body[j + 1] == '\n');
            assert(body_char_ok(body, d, a, b, c.text, j));
            assert(body_char_ok(body, d, a, b, c.text, j + 1));
            // a newline stands only at p0, at p1, or inside the text
            if j == p0 {
                assert(body[j + 1] == a[0]);
            } else if j == p1 {
                assert(body[j + 1] == c.text[0]);
                assert(!is_ws(c.text[0]));
            } else if j > p1 {
                assert(body[j] == c.text[j - p1 - 1]);
                if j + 1 < body.len() {
                    assert(body[j + 1] == c.text[j - p1]);
                }
            }
        }
    }
    assert forall|j: int| 0 <= j < body.len() - 1 implies !(#[trigger] body[j] == '\r' && body[j
        + 1] == '\n') by {
        if body[j] == '\r' && body[j + 1] == '\n' {
            assert(body_char_ok(body, d, a, b, c.text, j));
            assert(j > p1);
            assert(body[j] == c.text[j - p1 - 1]);
            if j + 1 < body.len() {
                assert(body[j + 1] == c.text[j - p1]);
            }
        }
    }
}

/// Where each character of a body comes from, and what it can be.
spec fn body_char_ok(
    body: Seq<char>,
    d: Seq<char>,
    a: Seq<char>,
    b: Seq<char>,
    text: Seq<char>,
    j: int,
) -> bool {
    let p0 = d.len() as int;
    let p1 = p0 + 1 + a.len() + 5 + b.len();
    if j < p0 {
        crate::text::is_digit(body[j])
    } else if j == p0 {
        body[j] == '\n'
    } else if j < p1 && j != p1 {
        ts_char(body[j]) || body[j] == ' ' || body[j] == '-' || body[j] == '>'
    } else if j == p1 {
        body[j] == '\n'
    } else {
        body[j] == text[j - p1 - 1] && (j - p1 - 1 < text.len() - 1 ==> !(body[j] == '\r'
            && text[j - p1] == '\n') && !(body[j] == '\n' && text[j - p1] == '\n')) && (j == body.len()
            - 1 ==> !is_ws(body[j]))
    }
}

/// Padding a string with clean ends by one space trims back to it.
proof fn lemma_trim_pad(a: Seq<char>)
    requires
        a.len() > 0,
        !is_ws(a[0]),
        !is_ws(a.last()),
    ensures
        trim_spec(a + seq![' ']) == a,
        trim_spec(seq![' '] + a) == a,
{
    let r = a + seq![' '];
    assert(crate::text::idx_first_non_ws(r, 0) == 0);
    assert(is_ws(' '));
    assert(crate::text::idx_after_last_non_ws(r, r.len() as int) == a.len()) by {
        assert(r[r.len() - 1] == ' ');
        assert(crate::text::idx_after_last_non_ws(r, r.len() as int)
            == crate::text::idx_after_last_non_ws(r, a.len() as int));
        assert(r[a.len() - 1] == a.last());
        assert(crate::text::idx_after_last_non_ws(r, a.len() as int) == a.len());
    }
    assert(trim_spec(r) =~= a);
    let l = seq![' '] + a;
    assert(crate::text::idx_first_non_ws(l, 0) == 1) by {
        assert(l[0] == ' ');
        assert(crate::text::idx_first_non_ws(l, 0) == crate::text::idx_first_non_ws(l, 1));
        assert(l[1] == a[0]);
        assert(crate::text::idx_first_non_ws(l, 1) == 1);
    }
    assert(crate::text::idx_after_last_non_ws(l, l.len() as int) == l.len()) by {
        assert(l[l.len() - 1] == a.last());
    }
    assert(trim_spec(l) =~= a);
}

/// Reading a rendered block back gives exactly its cue, with or without a
/// trailing newline on the block.
#[verifier::rlimit(100)]
proof fn lemma_parse_body(idx: int, c: CueS)
    requires
        1 <= idx,
        wf_cue(c),
        cue_text_clean(c),
    ensures
        parse_block(cue_body(idx, c)) == BlockParse::Cue(c),
        parse_block(cue_body(idx, c) + seq!['\n']) == BlockParse::Cue(c),
{
    let body = cue_body(idx, c);
    let d = dec_spec(idx as nat);
    let a = render_ts(c.start);
    let b = render_ts(c.end);
    let mid = seq![' ', '-', '-', '>', ' '];
    let timing = a + mid + b;
    crate::text::lemma_dec_spec_digits(idx as nat);
    crate::timecode::lemma_render_then_parse(c.start);
    crate::timecode::lemma_render_then_parse(c.end);
    lemma_trimmed_ends(c.text);
    // the index and timing lines hold no newline and no trailing return
    assert(forall|j: int| 0 <= j < d.len() ==> crate::text::is_digit(#[trigger] d[j]));
    assert forall|j: int| 0 <= j < d.len() implies #[trigger] d[j] != '\n' by {
        assert(crate::text::is_digit(d[j]));
    }
    assert forall|j: int| 0 <= j < timing.len() implies #[trigger] timing[j] != '\n' && timing[j]
        != '\r' by {
        if j < a.len() {
            assert(timing[j] == a[j]);
        } else if j < a.len() + 5 {
            assert(timing[j] == mid[j - a.len()]);
        } else {
            assert(timing[j] == b[j - a.len() - 5]);
        }
    }
    // the lines of the block: index, timing, and the text's lines
    assert(body =~= d + seq!['\n'] + (timing + seq!['\n'] + c.text));
    lemma_split_prepend_line(d, timing + seq!['\n'] + c.text);
    lemma_split_prepend_line(timing, c.text);
    let tparts = split_on(c.text, seq!['\n']);
    assert(split_on(body, seq!['\n']) == seq![d] + (seq![timing] + tparts));
    assert(c.text.last() != '\n' && c.text.last() != '\r') by {
        assert(is_ws('\n') && is_ws('\r'));
    }
    lemma_text_lines_roundtrip(c.text);
    lemma_split_on_len(c.text, seq!['\n']);
    let parts = split_on(body, seq!['\n']);
    assert(parts.len() == 2 + tparts.len());
    assert(parts.last() == tparts.last()) by {
        assert(parts[2 + tparts.len() - 1] == tparts[tparts.len() - 1]);
    }
    assert(parts.last().len() > 0);
    let ls = lines_of(body);
    assert(ls == parts.map_values(|l: Seq<char>| strip_cr(l)));
    assert(ls.len() == parts.len());
    assert(ls[0] == strip_cr(d));
    assert(strip_cr(d) == d) by {
        assert(crate::text::is_digit(d[d.len() - 1]));
    }
    assert(ls[1] == strip_cr(timing));
    assert(strip_cr(timing) == timing);
    // the same lines with a trailing newline on the block
    let body2 = body + seq!['\n'];
    assert(body2 =~= d + seq!['\n'] + (timing + seq!['\n'] + (c.text + seq!['\n'])));
    lemma_split_prepend_line(d, timing + seq!['\n'] + (c.text + seq!['\n']));
    lemma_split_prepend_line(timing, c.text + seq!['\n']);
    lemma_split_append_nl(c.text);
    let parts2 = split_on(body2, seq!['\n']);
    assert(parts2 == seq![d] + (seq![timing] + tparts.push(Seq::empty())));
    assert(parts2.len() == 3 + tparts.len());
    assert(parts2.last() == Seq::<char>::empty()) by {
        assert(parts2[parts2.len() - 1] == tparts.push(Seq::empty())[tparts.len() as int]);
    }
    assert(parts2.drop_last() =~= parts);
    let ls2 = lines_of(body2);
    assert(ls2 == parts.map_values(|l: Seq<char>| strip_cr(l)));
    assert(ls2 == ls);
    // the timing line parses to the cue's times
    assert(timing.len() == a.len() + 5 + b.len());
    let ar = a.len() as int + 1;
    assert(matches_at(timing, arrow(), ar)) by {
        assert(timing.subrange(ar, ar + 3) =~= arrow());
    }
    assert forall|j: int| 0 <= j < ar implies !matches_at(timing, arrow(), j) by {
        if matches_at(timing, arrow(), j) {
            assert(timing.subrange(j, j + 3)[0] == timing[j]);
            assert(timing[j] == '-');
            if j < a.len() {
                assert(timing[j] == a[j]);
                assert(crate::text::is_digit(a[j]) || a[j] == ':' || a[j] == ',');
            } else {
                assert(timing[j] == ' ');
            }
        }
    }
    lemma_find_sub_hit(timing, arrow(), 0, ar);
    assert(find_sub_from(timing, arrow(), 0) == ar);
    assert(ar != timing.len());
    assert(timing.subrange(0, ar) =~= a + seq![' ']);
    assert(crate::text::is_digit(a[0]) && crate::text::is_digit(a[a.len() - 1]));
    assert(!is_ws(a[0]) && !is_ws(a.last()));
    lemma_trim_pad(a);
    assert(trim_spec(timing.subrange(0, ar)) == a);
    let rest = timing.subrange(ar + 3, timing.len() as int);
    assert(rest =~= seq![' '] + b);
    assert forall|j: int| 0 <= j < rest.len() implies !matches_at(rest, arrow(), j) by {
        if matches_at(rest, arrow(), j) {
            assert(rest.subrange(j, j + 3)[0] == rest[j]);
            assert(rest[j] == '-');
            if j == 0 {
                assert(rest[0] == ' ');
            } else {
                assert(rest[j] == b[j - 1]);
                assert(crate::text::is_digit(b[j - 1]) || b[j - 1] == ':' || b[j - 1] == ',');
            }
        }
    }
    lemma_find_sub_miss(rest, arrow(), 0);
    assert(rest.subrange(0, rest.len() as int) =~= rest);
    assert(!is_ws(b[0]) && !is_ws(b.last()));
    lemma_trim_pad(b);
    assert(trim_spec(rest) == b);
    // the text comes back unchanged
    let tail = ls.subrange(2, ls.len() as int);
    assert(tail =~= tparts.map_values(|l: Seq<char>| strip_cr(l))) by {
        assert forall|k: int| 0 <= k < tail.len() implies tail[k] == strip_cr(tparts[k]) by {
            assert(tail[k] == ls[k + 2]);
            assert(parts[k + 2] == tparts[k]);
        }
    }
    assert(join_nl(tail) == c.text);
    lemma_trim_idempotent(c.text);
    assert(trim_spec(c.text) == c.text);
    assert(parse_block(body) == BlockParse::Cue(
        CueS { start: c.start, end: c.end, text: c.text, norm: norm_of(c.text) },
    ));
    assert(CueS { start: c.start, end: c.end, text: c.text, norm: norm_of(c.text) } =~= c);
    assert(parse_block(body2) == parse_block(body));
}

/// The written text from block `i` on: the rendering of the remaining cues
/// with the final newline dropped.
spec fn out_suffix(ms: Seq<CueS>, i: int) -> Seq<char> {
    render_cues_from(ms, i).drop_last()
}

/// Structure of the written text: it splits at the blank lines back into
/// the rendered blocks, which parse back to exactly the cues; no `\r\n`
/// occurs in it; and it begins with a digit and ends with a newline.
#[verifier::rlimit(100)]
proof fn lemma_suffix_structure(ms: Seq<CueS>, i: int)
    requires
        0 <= i < ms.len(),
        forall|k: int| 0 <= k < ms.len() ==> wf_cue(#[trigger] ms[k]),
        forall|k: int| 0 <= k < ms.len() ==> cue_text_clean(#[trigger] ms[k]),
    ensures
        ({
            let s = out_suffix(ms, i);
            &&& parse_blocks(split_on(s, nl2())) == Ok::<Seq<CueS>, ()>(
                ms.subrange(i, ms.len() as int),
            )
            &&& forall|j: int|
                0 <= j < s.len() - 1 ==> !(#[trigger] s[j] == '\r' && s[j + 1] == '\n')
            &&& s.len() >= 2
            &&& crate::text::is_digit(s[0])
            &&& s.last() == '\n'
            &&& !is_ws(s[s.len() - 2])
            &&& render_cues_from(ms, i).last() == '\n'
        }),
    decreases ms.len() - i,
{
    let body = cue_body(i + 1, ms[i]);
    lemma_body_chars(i + 1, ms[i]);
    lemma_parse_body(i + 1, ms[i]);
    assert(render_cue(i + 1, ms[i]) =~= body + nl2());
    let bl = body.len() as int;
    if i == ms.len() - 1 {
        assert(render_cues_from(ms, i + 1) =~= Seq::<char>::empty());
        assert(render_cues_from(ms, i) =~= body + nl2());
        let s = out_suffix(ms, i);
        assert(s =~= body + seq!['\n']);
        assert(s.len() == bl + 1);
        assert forall|j: int| 0 <= j < s.len() implies #[trigger] s[j] == (if j < bl {
            body[j]
        } else {
            '\n'
        }) by {}
        assert forall|j: int| 0 <= j < s.len() implies !matches_at(s, nl2(), j) by {
            if matches_at(s, nl2(), j) {
                assert(s.subrange(j, j + 2)[0] == s[j]);
                assert(s.subrange(j, j + 2)[1] == s[j + 1]);
                assert(s[j] == '\n' && s[j + 1] == '\n');
                assert(j + 1 < s.len());
                if j + 1 < bl {
                    assert(body.subrange(j, j + 2) =~= nl2());
                    assert(matches_at(body, nl2(), j));
                } else {
                    assert(j + 1 == bl);
                    assert(s[j] == body[bl - 1]);
                    assert(!is_ws(body.last()));
                }
            }
        }
        lemma_split_on_miss(s, nl2());
        assert(split_on(s, nl2()) == seq![s]);
        assert(parse_block(s) == BlockParse::Cue(ms[i]));
        assert(seq![s].drop_first() =~= Seq::<Seq<char>>::empty());
        assert(seq![s][0] == s);
        assert(parse_blocks(Seq::<Seq<char>>::empty()) == Ok::<Seq<CueS>, ()>(Seq::empty()));
        assert(parse_blocks(seq![s]) == Ok::<Seq<CueS>, ()>(
            seq![ms[i]] + Seq::<CueS>::empty(),
        ));
        assert(seq![ms[i]] + Seq::<CueS>::empty() =~= ms.subrange(i, ms.len() as int));
        assert forall|j: int| 0 <= j < s.len() - 1 implies !(#[trigger] s[j] == '\r' && s[j + 1]
            == '\n') by {
            if s[j] == '\r' && s[j + 1] == '\n' {
                assert(j < bl);
                assert(s[j] == body[j]);
                if j < bl - 1 {
                    assert(s[j + 1] == body[j + 1]);
                } else {
                    assert(!is_ws(body.last()));
                }
            }
        }
        assert(s[0] == body[0]);
        assert(s[s.len() - 2] == body[bl - 1]);
        assert(render_cues_from(ms, i).last() == '\n');
    } else {
        lemma_suffix_structure(ms, i + 1);
        let snext = out_suffix(ms, i + 1);
        let rnext = render_cues_from(ms, i + 1);
        assert(rnext.len() >= 3);
        assert(render_cues_from(ms, i) == render_cue(i + 1, ms[i]) + rnext);
        let s = out_suffix(ms, i);
        assert(s =~= body + nl2() + snext);
        assert(s.len() == bl + 2 + snext.len());
        assert forall|j: int| 0 <= j < s.len() implies #[trigger] s[j] == (if j < bl {
            body[j]
        } else if j < bl + 2 {
            '\n'
        } else {
            snext[j - bl - 2]
        }) by {}
        assert(matches_at(s, nl2(), bl)) by {
            assert(s.subrange(bl, bl + 2) =~= nl2());
        }
        assert forall|j: int| 0 <= j < bl implies !matches_at(s, nl2(), j) by {
            if matches_at(s, nl2(), j) {
                assert(s.subrange(j, j + 2)[0] == s[j]);
                assert(s.subrange(j, j + 2)[1] == s[j + 1]);
                assert(s[j] == '\n' && s[j + 1] == '\n');
                if j + 1 < bl {
                    assert(body.subrange(j, j + 2) =~= nl2());
                    assert(matches_at(body, nl2(), j));
                } else {
                    assert(j == bl - 1);
                    assert(s[j] == body[bl - 1]);
                    assert(!is_ws(body.last()));
                }
            }
        }
        lemma_split_on_first(s, nl2(), bl);
        assert(s.subrange(0, bl) =~= body);
        assert(s.subrange(bl + 2, s.len() as int) =~= snext);
        assert(split_on(s, nl2()) == seq![body] + split_on(snext, nl2()));
        assert(parse_block(body) == BlockParse::Cue(ms[i]));
        let p = seq![body] + split_on(snext, nl2());
        assert(p[0] == body);
        assert(p.drop_first() =~= split_on(snext, nl2()));
        assert(parse_blocks(p) == Ok::<Seq<CueS>, ()>(
            seq![ms[i]] + ms.subrange(i + 1, ms.len() as int),
        ));
        assert(seq![ms[i]] + ms.subrange(i + 1, ms.len() as int) =~= ms.subrange(
            i,
            ms.len() as int,
        ));
        assert forall|j: int| 0 <= j < s.len() - 1 implies !(#[trigger] s[j] == '\r' && s[j + 1]
            == '\n') by {
            if s[j] == '\r' && s[j + 1] == '\n' {
                if j < bl {
                    assert(s[j] == body[j]);
                    if j < bl - 1 {
                        assert(s[j + 1] == body[j + 1]);
                    } else {
                        assert(!is_ws(body.last()));
                    }
                } else if j >= bl + 2 {
                    assert(s[j] == snext[j - bl - 2]);
                    assert(s[j + 1] == snext[j - bl - 1]);
                }
            }
        }
        assert(s[0] == body[0]);
        assert(s.last() == snext.last());
        assert(s[s.len() - 2] == snext[snext.len() - 2]);
        assert(render_cues_from(ms, i).last() == rnext.last());
    }
}

/// Deduplication is a fixed point on its own output: running the transform
/// on what it wrote either rewrites the identical text or finds nothing to
/// do. The one caveat: a cue text that carries a `\r` before a line break
/// or an embedded blank line would not survive re-reading, so the law asks
/// that the merged cues be free of those.
pub proof fn lemma_dedup_fixed_point(content: Seq<char>, gap: int, out: Seq<char>)
    requires
        dedup_spec(content, gap) == Ok::<Option<Seq<char>>, ()>(Some(out)),
        forall|k: int|
            0 <= k < dedup_cues(content, gap).len() ==> cue_text_clean(
                #[trigger] dedup_cues(content, gap)[k],
            ),
    ensures
        dedup_spec(out, gap) == Ok::<Option<Seq<char>>, ()>(None) || dedup_spec(out, gap)
            == Ok::<Option<Seq<char>>, ()>(Some(out)),
{
    let t = normalize_nl(content);
    assert(trim_spec(t).len() > 0);
    let cs = parse_blocks(split_on(t, nl2()))->Ok_0;
    let ms = merge_cues(cs, gap);
    assert(ms == dedup_cues(content, gap));
    lemma_parse_blocks_wf(split_on(t, nl2()));
    lemma_merge_wf(cs, gap);
    assert(out == dedup_output(ms));
    if ms.len() == 0 {
        assert(render_cues(ms) =~= Seq::<char>::empty());
        assert(crate::text::idx_after_last_non_ws(render_cues(ms), 0) == 0);
        assert(trim_end_spec(render_cues(ms)) =~= Seq::<char>::empty());
        assert(out =~= seq!['\n']);
        lemma_normalize_identity(out);
        crate::text::lemma_trim_empty(out);
        assert(is_ws('\n'));
        assert(trim_spec(normalize_nl(out)).len() == 0);
        assert(dedup_spec(out, gap) == Ok::<Option<Seq<char>>, ()>(None));
    } else {
        lemma_suffix_structure(ms, 0);
        let s = out_suffix(ms, 0);
        let r = render_cues(ms);
        assert(r == render_cues_from(ms, 0));
        assert(r.len() == s.len() + 1);
        assert(r.last() == '\n');
        assert(forall|j: int| 0 <= j < s.len() ==> r[j] == s[j]);
        assert(r[r.len() - 2] == s.last());
        assert(r[r.len() - 3] == s[s.len() - 2]);
        assert(crate::text::idx_after_last_non_ws(r, r.len() as int) == r.len() - 2) by {
            assert(r[r.len() - 1] == '\n' && is_ws('\n'));
            assert(crate::text::idx_after_last_non_ws(r, r.len() as int)
                == crate::text::idx_after_last_non_ws(r, r.len() - 1));
            assert(r[r.len() - 2] == '\n');
            assert(crate::text::idx_after_last_non_ws(r, r.len() - 1)
                == crate::text::idx_after_last_non_ws(r, r.len() - 2));
            assert(!is_ws(r[r.len() - 3]));
            assert(crate::text::idx_after_last_non_ws(r, r.len() - 2) == r.len() - 2);
        }
        assert(trim_end_spec(r) == r.subrange(0, r.len() - 2));
        assert(out =~= r.subrange(0, r.len() - 2) + seq!['\n']);
        assert(out =~= s);
        // the second pass
        lemma_normalize_identity(out);
        assert(normalize_nl(out) == out);
        assert(trim_spec(out).len() > 0) by {
            crate::text::lemma_trim_empty(out);
            assert(crate::text::is_digit(out[0]));
            assert(!is_ws(out[0]));
        }
        assert(parse_blocks(split_on(out, nl2())) == Ok::<Seq<CueS>, ()>(
            ms.subrange(0, ms.len() as int),
        ));
        assert(ms.subrange(0, ms.len() as int) =~= ms);
        lemma_merge_idempotent(cs, gap);
        assert(merge_cues(ms, gap) == ms);
        assert(dedup_spec(out, gap) == Ok::<Option<Seq<char>>, ()>(Some(dedup_output(ms))));
    }
}

/// The whole deduplication transform on file content: `Ok(None)` when there
/// is nothing to write, `Ok(Some(text))` with the merged rendering to write
/// back, `Err` on a malformed timing line.
pub fn dedup_content(content: &str, merge_gap_ms: i64) -> (r: Result<Option<String>, String>)
    ensures
        match r {
            Ok(None) => dedup_spec(content@, merge_gap_ms as int) == Ok::<Option<Seq<char>>, ()>(
                None,
            ),
            Ok(Some(out)) => dedup_spec(content@, merge_gap_ms as int) == Ok::<
                Option<Seq<char>>,
                (),
            >(Some(out@)),
            Err(e) => dedup_spec(content@, merge_gap_ms as int) is Err && e@
                == "Invalid timestamp"@,
        },
{
    let raw = str_chars(content);
    let t = normalize_chars(&raw);
    let trimmed = trim_chars(&t);
    if trimmed.len() == 0 {
        return Ok(None);
    }
    let sep: Vec<char> = vec!['\n', '\n'];
    assert(sep@ =~= nl2());
    let blocks = split_on_exec(&t, &sep);
    proof {
        assert(Seq::new(blocks@.len(), |j: int| blocks@[j]@) =~= split_on(t@, nl2()));
    }
    match parse_blocks_exec(&blocks) {
        Err(e) => Err(e),
        Ok(cues) => {
            let merged = merge_exec(&cues, merge_gap_ms);
            let rendered = render_exec(&merged);
            let mut outv = trim_end_chars(&rendered);
            outv.push('\n');
            assert(outv@ =~= dedup_output(merge_cues(views(cues@), merge_gap_ms as int)));
            Ok(Some(chars_string(&outv)))
        },
    }
}

} // verus!
