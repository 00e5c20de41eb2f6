//! Scene blocks: the maximal runs of consecutive bonus-scene records of a
//! dialogue section, each with its nearest preceding and following ordinary
//! record. The blocks form a first-in-first-out queue that the merge engine
//! consumes in file order.

use vstd::prelude::*;
use std::collections::VecDeque;

use crate::errors::{ParserError, ParseRes};
use crate::parser::{Parser, spec_is_scene};

verus! {

/// Mathematical image of one scene block.
pub struct SpecBlock {
    pub prev: Option<Seq<char>>,
    pub next: Option<Seq<char>>,
    pub lines: Seq<Seq<char>>,
}

/// One run of consecutive bonus-scene records, with its ordinary neighbors.
#[derive(Debug)]
pub struct Block {
    previous_normal: Option<String>,
    next_normal: Option<String>,
    additional_lines: Vec<String>,
}

impl View for Block {
    type V = SpecBlock;

    closed spec fn view(&self) -> SpecBlock {
        SpecBlock {
            prev: match self.previous_normal {
                Some(s) => Some(s@),
                None => None,
            },
            next: match self.next_normal {
                Some(s) => Some(s@),
                None => None,
            },
            lines: self.additional_lines.deep_view(),
        }
    }
}

impl DeepView for Block {
    type V = SpecBlock;

    closed spec fn deep_view(&self) -> SpecBlock {
        self.view()
    }
}

impl Block {
    pub fn new(
        previous_normal: Option<String>,
        next_normal: Option<String>,
        additional_lines: Vec<String>,
    ) -> (r: Self)
        ensures
            r@.prev == match previous_normal {
                Some(s) => Some(s@),
                None => None::<Seq<char>>,
            },
            r@.next == match next_normal {
                Some(s) => Some(s@),
                None => None::<Seq<char>>,
            },
            r@.lines == additional_lines.deep_view(),
    {
        Block { previous_normal, next_normal, additional_lines }
    }

    /// The nearest ordinary record before the block, if any.
    pub fn previous_line(&self) -> (r: Option<&String>)
        ensures
            match r {
                Some(s) => self@.prev == Some(s@),
                None => self@.prev is None,
            },
    {
        self.previous_normal.as_ref()
    }

    /// The nearest ordinary record after the block, if any.
    pub fn next_line(&self) -> (r: Option<&String>)
        ensures
            match r {
                Some(s) => self@.next == Some(s@),
                None => self@.next is None,
            },
    {
        self.next_normal.as_ref()
    }

    /// The block's own records, verbatim.
    pub fn additional_lines(&self) -> (r: &Vec<String>)
        ensures
            r.deep_view() == self@.lines,
    {
        &self.additional_lines
    }

    /// A field-for-field copy.
    pub fn duplicate(&self) -> (r: Block)
        ensures
            r@ == self@,
    {
        let prev = match &self.previous_normal {
            Some(s) => Some(s.clone()),
            None => None,
        };
        let next = match &self.next_normal {
            Some(s) => Some(s.clone()),
            None => None,
        };
        let mut lines: Vec<String> = Vec::new();
        let mut i: usize = 0;
        while i < self.additional_lines.len()
            invariant
                i <= self.additional_lines@.len(),
                lines.deep_view() =~~= self.additional_lines.deep_view().subrange(0, i as int),
            decreases self.additional_lines@.len() - i,
        {
            let ghost dv0 = lines.deep_view();
            lines.push(self.additional_lines[i].clone());
            proof {
                assert(lines.deep_view() =~~= dv0.push(self.additional_lines.deep_view()[i as int]));
            }
            i = i + 1;
        }
        proof {
            assert(lines.deep_view() =~= self.additional_lines.deep_view());
        }
        let r = Block { previous_normal: prev, next_normal: next, additional_lines: lines };
        proof {
            assert(r@.lines =~= self@.lines);
        }
        r
    }
}

/// Accumulates the index ranges of scene runs while a dialogue section is
/// scanned once, front to back.
pub struct BlockState {
    start: Option<usize>,
    ranges: Vec<(usize, usize)>,
}

impl BlockState {
    /// The index where the open run began, if a run is open.
    pub closed spec fn start_view(&self) -> Option<int> {
        match self.start {
            Some(s) => Some(s as int),
            None => None,
        }
    }

    /// The closed ranges, in file order.
    pub closed spec fn ranges_view(&self) -> Seq<(int, int)> {
        Seq::new(self.ranges@.len(), |i: int| (self.ranges@[i].0 as int, self.ranges@[i].1 as int))
    }

    pub fn new() -> (r: Self)
        ensures
            r.start_view() is None,
            r.ranges_view() == Seq::<(int, int)>::empty(),
    {
        let r = BlockState { start: None, ranges: Vec::new() };
        proof {
            assert(r.ranges_view() =~= Seq::<(int, int)>::empty());
        }
        r
    }

    /// Opens a run at `index` unless one is already open.
    pub fn update_start(&mut self, index: usize)
        ensures
            final(self).start_view() == match old(self).start_view() {
                Some(s) => Some(s),
                None => Some(index as int),
            },
            final(self).ranges_view() == old(self).ranges_view(),
    {
        if self.start.is_none() {
            self.start = Some(index);
        }
        proof {
            assert(self.ranges_view() =~= old(self).ranges_view());
        }
    }

    /// Closes the open run, if any, just before `index`.
    pub fn end_block(&mut self, index: usize)
        requires
            old(self).start_view() is Some ==> index >= 1,
        ensures
            final(self).start_view() is None,
            final(self).ranges_view() == match old(self).start_view() {
                Some(s) => old(self).ranges_view().push((s, index - 1)),
                None => old(self).ranges_view(),
            },
    {
        if let Some(start) = self.start {
            self.start = None;
            self.ranges.push((start, index - 1));
            proof {
                assert(self.ranges_view() =~= old(self).ranges_view().push(
                    (start as int, index - 1),
                ));
            }
        } else {
            self.start = None;
            proof {
                assert(self.ranges_view() =~= old(self).ranges_view());
            }
        }
    }

    /// Closes the open run, if any, at the end of the section.
    pub fn close_final(&mut self, total: usize)
        requires
            old(self).start_view() is Some ==> total >= 1,
        ensures
            final(self).start_view() is None,
            final(self).ranges_view() == match old(self).start_view() {
                Some(s) => old(self).ranges_view().push((s, total - 1)),
                None => old(self).ranges_view(),
            },
    {
        self.end_block(total);
    }

    /// Hands the closed ranges out.
    pub fn into_ranges(self) -> (r: Vec<(usize, usize)>)
        ensures
            Seq::new(r@.len(), |i: int| (r@[i].0 as int, r@[i].1 as int)) == self.ranges_view(),
    {
        let r = self.ranges;
        proof {
            assert(Seq::new(r@.len(), |i: int| (r@[i].0 as int, r@[i].1 as int))
                =~= self.ranges_view());
        }
        r
    }
}

/// The scene-run ranges of a section, accumulated front to back: `start` is
/// the opening index of the run in progress, `acc` the closed ranges.
pub open spec fn ranges_from(
    ls: Seq<Seq<char>>,
    i: int,
    start: Option<int>,
    acc: Seq<(int, int)>,
) -> Result<Seq<(int, int)>, ParserError>
    decreases ls.len() - i,
{
    if i < 0 || i >= ls.len() {
        Ok(
            match start {
                Some(s) => acc.push((s, ls.len() - 1)),
                None => acc,
            },
        )
    } else {
        match spec_is_scene(ls[i]) {
            Err(e) => Err(e),
            Ok(true) => ranges_from(
                ls,
                i + 1,
                match start {
                    Some(s) => Some(s),
                    None => Some(i),
                },
                acc,
            ),
            Ok(false) => ranges_from(
                ls,
                i + 1,
                None,
                match start {
                    Some(s) => acc.push((s, i - 1)),
                    None => acc,
                },
            ),
        }
    }
}

/// The scene-run ranges of a section.
pub open spec fn spec_ranges(ls: Seq<Seq<char>>) -> Result<Seq<(int, int)>, ParserError> {
    ranges_from(ls, 0, None, Seq::empty())
}

/// The nearest ordinary record before position `idx`, scanning backward.
pub open spec fn spec_find_prev(ls: Seq<Seq<char>>, idx: int) -> Result<
    Option<Seq<char>>,
    ParserError,
>
    decreases idx,
{
    if idx <= 0 {
        Ok(None)
    } else {
        match spec_is_scene(ls[idx - 1]) {
            Err(e) => Err(e),
            Ok(false) => Ok(Some(ls[idx - 1])),
            Ok(true) => spec_find_prev(ls, idx - 1),
        }
    }
}

/// The nearest ordinary record after position `end`, scanning forward.
pub open spec fn spec_find_next(ls: Seq<Seq<char>>, end: int) -> Result<
    Option<Seq<char>>,
    ParserError,
>
    decreases ls.len() - end,
{
    if end + 1 >= ls.len() || end + 1 < 0 {
        Ok(None)
    } else {
        match spec_is_scene(ls[end + 1]) {
            Err(e) => Err(e),
            Ok(false) => Ok(Some(ls[end + 1])),
            Ok(true) => spec_find_next(ls, end + 1),
        }
    }
}

/// The block of one range: its records and its two neighbors.
pub open spec fn spec_block_at(ls: Seq<Seq<char>>, s: int, e: int) -> Result<
    SpecBlock,
    ParserError,
> {
    match spec_find_prev(ls, s) {
        Err(err) => Err(err),
        Ok(prev) => match spec_find_next(ls, e) {
            Err(err) => Err(err),
            Ok(next) => Ok(SpecBlock { prev, next, lines: ls.subrange(s, e + 1) }),
        },
    }
}

/// The blocks of the given ranges, in order.
pub open spec fn spec_blocks_from(ls: Seq<Seq<char>>, rs: Seq<(int, int)>) -> Result<
    Seq<SpecBlock>,
    ParserError,
>
    decreases rs.len(),
{
    if rs.len() == 0 {
        Ok(Seq::empty())
    } else {
        match spec_block_at(ls, rs[0].0, rs[0].1) {
            Err(e) => Err(e),
            Ok(b) => match spec_blocks_from(ls, rs.drop_first()) {
                Err(e) => Err(e),
                Ok(t) => Ok(seq![b] + t),
            },
        }
    }
}

/// The scene-block queue of a dialogue section, in file order.
pub open spec fn spec_blocks(ls: Seq<Seq<char>>) -> Result<Seq<SpecBlock>, ParserError> {
    match spec_ranges(ls) {
        Err(e) => Err(e),
        Ok(rs) => spec_blocks_from(ls, rs),
    }
}

/// Copy of the range `[a, b)` of a line slice.
fn clone_lines(ls: &[String], a: usize, b: usize) -> (r: Vec<String>)
    requires
        a <= b <= ls@.len(),
    ensures
        r.deep_view() == ls.deep_view().subrange(a as int, b as int),
{
    let mut r: Vec<String> = Vec::new();
    let mut i: usize = a;
    while i < b
        invariant
            a <= i <= b <= ls@.len(),
            ls.deep_view().len() == ls@.len(),
            r.deep_view() =~~= ls.deep_view().subrange(a as int, i as int),
        decreases b - i,
    {
        let ghost dv0 = r.deep_view();
        r.push(ls[i].clone());
        proof {
            assert(r.deep_view() =~~= dv0.push(ls.deep_view()[i as int]));
        }
        i = i + 1;
    }
    proof {
        assert(r.deep_view() =~= ls.deep_view().subrange(a as int, b as int));
    }
    r
}

/// The first-in-first-out queue of scene blocks of one dialogue section.
pub struct Blocks {
    queue: VecDeque<Block>,
}

impl View for Blocks {
    type V = Seq<SpecBlock>;

    closed spec fn view(&self) -> Seq<SpecBlock> {
        self.queue.deep_view()
    }
}

impl Blocks {
    /// Builds the queue from a dialogue section.
    pub fn new(lines: &[String], parser: &Parser) -> (r: ParseRes<Self>)
        ensures
            r matches Ok(b) ==> spec_blocks(lines.deep_view()) == Ok::<_, ParserError>(b@),
            r matches Err(e) ==> spec_blocks(lines.deep_view()) == Err::<Seq<SpecBlock>, _>(e),
    {
        let ranges = match Self::get_block_indices(lines, parser) {
            Ok(rs) => rs,
            Err(e) => {
                return Err(e);
            },
        };
        let queue = match Self::analyze_blocks(parser, lines, ranges) {
            Ok(q) => q,
            Err(e) => {
                return Err(e);
            },
        };
        Ok(Blocks { queue })
    }

    /// Scans the section once and closes every scene run.
    fn get_block_indices(lines: &[String], parser: &Parser) -> (r: ParseRes<Vec<(usize, usize)>>)
        ensures
            r matches Ok(rs) ==> spec_ranges(lines.deep_view()) == Ok::<_, ParserError>(
                Seq::new(rs@.len(), |i: int| (rs@[i].0 as int, rs@[i].1 as int)),
            ) && forall|i: int|
                0 <= i < rs@.len() ==> 0 <= #[trigger] rs@[i].0 <= rs@[i].1 < lines@.len(),
            r matches Err(e) ==> spec_ranges(lines.deep_view()) == Err::<Seq<(int, int)>, _>(e),
    {
        let ghost dv = lines.deep_view();
        let n = lines.len();
        let mut state = BlockState::new();
        let mut i: usize = 0;
        while i < n
            invariant
                i <= n,
                n == lines@.len(),
                dv == lines.deep_view(),
                dv.len() == n,
                spec_ranges(dv) == ranges_from(dv, i as int, state.start_view(), state.ranges_view()),
                state.start_view() matches Some(s) ==> 0 <= s < i,
                forall|k: int|
                    0 <= k < state.ranges_view().len() ==> 0 <= (
                    #[trigger] state.ranges_view()[k]).0 <= state.ranges_view()[k].1 < i,
            decreases n - i,
        {
            match parser.is_scene_line(&lines[i]) {
                Err(e) => {
                    return Err(e);
                },
                Ok(true) => {
                    state.update_start(i);
                },
                Ok(false) => {
                    state.end_block(i);
                },
            }
            i = i + 1;
        }
        let ghost st = state.start_view();
        let ghost rv = state.ranges_view();
        state.close_final(n);
        proof {
            assert(spec_ranges(dv) == ranges_from(dv, n as int, st, rv));
            assert(ranges_from(dv, n as int, st, rv) == Ok::<_, ParserError>(
                match st {
                    Some(s) => rv.push((s, n - 1)),
                    None => rv,
                },
            ));
        }
        proof {
            assert forall|k: int|
                0 <= k < state.ranges_view().len() implies 0 <= (
            #[trigger] state.ranges_view()[k]).0 <= state.ranges_view()[k].1 < n by {
                if st is Some && k == state.ranges_view().len() - 1 {
                    assert(state.ranges_view()[k] == (st->Some_0, n - 1));
                } else {
                    assert(state.ranges_view()[k] == rv[k]);
                }
            }
        }
        let rs = state.into_ranges();
        proof {
            let rsv = Seq::new(rs@.len(), |i: int| (rs@[i].0 as int, rs@[i].1 as int));
            assert(rsv == state.ranges_view());
            assert forall|i: int| 0 <= i < rs@.len() implies 0 <= (#[trigger] rs@[i]).0
                <= rs@[i].1 < lines@.len() by {
                assert(rsv[i] == (rs@[i].0 as int, rs@[i].1 as int));
                assert(0 <= state.ranges_view()[i].0 <= state.ranges_view()[i].1 < n);
            }
        }
        Ok(rs)
    }

    /// Builds one block per range, in order.
    fn analyze_blocks(parser: &Parser, lines: &[String], ranges: Vec<(usize, usize)>) -> (r:
        ParseRes<VecDeque<Block>>)
        requires
            forall|i: int|
                0 <= i < ranges@.len() ==> 0 <= #[trigger] ranges@[i].0 <= ranges@[i].1
                    < lines@.len(),
        ensures
            r matches Ok(q) ==> spec_blocks_from(
                lines.deep_view(),
                Seq::new(ranges@.len(), |i: int| (ranges@[i].0 as int, ranges@[i].1 as int)),
            ) == Ok::<_, ParserError>(q.deep_view()),
            r matches Err(e) ==> spec_blocks_from(
                lines.deep_view(),
                Seq::new(ranges@.len(), |i: int| (ranges@[i].0 as int, ranges@[i].1 as int)),
            ) == Err::<Seq<SpecBlock>, _>(e),
    {
        let ghost dv = lines.deep_view();
        let ghost rsv = Seq::new(
            ranges@.len(),
            |i: int| (ranges@[i].0 as int, ranges@[i].1 as int),
        );
        let m = ranges.len();
        let mut queue: VecDeque<Block> = VecDeque::new();
        let mut k: usize = 0;
        proof {
            assert(rsv.skip(0) =~= rsv);
            assert(queue.deep_view() =~= Seq::<SpecBlock>::empty());
        }
        while k < m
            invariant
                k <= m,
                m == ranges@.len(),
                dv == lines.deep_view(),
                rsv == Seq::new(
                    ranges@.len(),
                    |i: int| (ranges@[i].0 as int, ranges@[i].1 as int),
                ),
                forall|i: int|
                    0 <= i < ranges@.len() ==> 0 <= #[trigger] ranges@[i].0 <= ranges@[i].1
                        < lines@.len(),
                queue.deep_view().len() == k,
                forall|e: ParserError|
                    spec_blocks_from(dv, rsv) == Err::<Seq<SpecBlock>, _>(e) <==> spec_blocks_from(
                        dv,
                        rsv.skip(k as int),
                    ) == Err::<Seq<SpecBlock>, _>(e),
                spec_blocks_from(dv, rsv.skip(k as int)) matches Ok(tl) ==> spec_blocks_from(
                    dv,
                    rsv,
                ) == Ok::<_, ParserError>(queue.deep_view() + tl),
            decreases m - k,
        {
            let ghost rest = rsv.skip(k as int);
            proof {
                assert(rest[0] == rsv[k as int]);
                assert(rest.drop_first() =~= rsv.skip(k as int + 1));
            }
            let (s, e) = (ranges[k].0, ranges[k].1);
            let block = match Self::create_block(parser, lines, s, e) {
                Ok(b) => b,
                Err(err) => {
                    return Err(err);
                },
            };
            let ghost qv0 = queue.deep_view();
            let ghost bv = block@;
            queue.push_back(block);
            proof {
                assert(queue.deep_view() =~~= qv0.push(bv));
                let rest_tail = spec_blocks_from(dv, rsv.skip(k as int + 1));
                if rest_tail is Ok {
                    let tl = rest_tail->Ok_0;
                    assert(spec_blocks_from(dv, rest) == Ok::<_, ParserError>(seq![bv] + tl));
                    assert(qv0 + (seq![bv] + tl) =~= queue.deep_view() + tl);
                }
            }
            k = k + 1;
        }
        proof {
            assert(rsv.skip(m as int).len() == 0);
            assert(spec_blocks_from(dv, rsv.skip(m as int)) == Ok::<_, ParserError>(
                Seq::<SpecBlock>::empty(),
            ));
            assert(queue.deep_view() + Seq::<SpecBlock>::empty() =~= queue.deep_view());
        }
        Ok(queue)
    }

    /// Builds the block of one range.
    fn create_block(parser: &Parser, lines: &[String], s: usize, e: usize) -> (r: ParseRes<Block>)
        requires
            s <= e < lines@.len(),
        ensures
            r matches Ok(b) ==> spec_block_at(lines.deep_view(), s as int, e as int) == Ok::<
                _,
                ParserError,
            >(b@),
            r matches Err(err) ==> spec_block_at(lines.deep_view(), s as int, e as int) == Err::<
                SpecBlock,
                _,
            >(err),
    {
        let n = lines.len();
        let additional = clone_lines(lines, s, e + 1);
        let previous_normal = match Self::find_previous_normal(lines, s, parser) {
            Ok(p) => p,
            Err(err) => {
                return Err(err);
            },
        };
        let next_normal = match Self::find_next_normal(lines, e, parser) {
            Ok(nx) => nx,
            Err(err) => {
                return Err(err);
            },
        };
        let b = Block::new(previous_normal, next_normal, additional);
        Ok(b)
    }

    /// Scans backward from `index` for the nearest ordinary record.
    fn find_previous_normal(lines: &[String], index: usize, parser: &Parser) -> (r: ParseRes<
        Option<String>,
    >)
        requires
            index <= lines@.len(),
        ensures
            r matches Ok(p) ==> spec_find_prev(lines.deep_view(), index as int) == Ok::<
                _,
                ParserError,
            >(
                match p {
                    Some(s) => Some(s@),
                    None => None::<Seq<char>>,
                },
            ),
            r matches Err(e) ==> spec_find_prev(lines.deep_view(), index as int) == Err::<
                Option<Seq<char>>,
                _,
            >(e),
    {
        let ghost dv = lines.deep_view();
        let mut j: usize = index;
        while j > 0
            invariant
                j <= index <= dv.len(),
                dv == lines.deep_view(),
                dv.len() == lines@.len(),
                spec_find_prev(dv, index as int) == spec_find_prev(dv, j as int),
            decreases j,
        {
            match parser.is_scene_line(&lines[j - 1]) {
                Err(e) => {
                    return Err(e);
                },
                Ok(false) => {
                    return Ok(Some(lines[j - 1].clone()));
                },
                Ok(true) => {
                    j = j - 1;
                },
            }
        }
        Ok(None)
    }

    /// Scans forward from `end` for the nearest ordinary record.
    fn find_next_normal(lines: &[String], end: usize, parser: &Parser) -> (r: ParseRes<
        Option<String>,
    >)
        requires
            end < lines@.len(),
        ensures
            r matches Ok(nx) ==> spec_find_next(lines.deep_view(), end as int) == Ok::<
                _,
                ParserError,
            >(
                match nx {
                    Some(s) => Some(s@),
                    None => None::<Seq<char>>,
                },
            ),
            r matches Err(e) ==> spec_find_next(lines.deep_view(), end as int) == Err::<
                Option<Seq<char>>,
                _,
            >(e),
    {
        let ghost dv = lines.deep_view();
        let n = lines.len();
        let mut j: usize = end;
        while j + 1 < n
            invariant
                n == lines@.len(),
                dv == lines.deep_view(),
                dv.len() == n,
                end <= j < n,
                spec_find_next(dv, end as int) == spec_find_next(dv, j as int),
            decreases n - j,
        {
            match parser.is_scene_line(&lines[j + 1]) {
                Err(e) => {
                    return Err(e);
                },
                Ok(false) => {
                    return Ok(Some(lines[j + 1].clone()));
                },
                Ok(true) => {
                    j = j + 1;
                },
            }
        }
        Ok(None)
    }

    /// A copy of the front block. The queue must not be empty.
    pub fn peek_first_block(&self) -> (r: Block)
        requires
            self@.len() > 0,
        ensures
            r@ == self@[0],
    {
        let b = &self.queue[0];
        proof {
            assert(self.queue.deep_view()[0] == self.queue@[0]@);
        }
        b.duplicate()
    }

    /// Takes the front block out of the queue.
    pub fn pop_first_block(&mut self) -> (r: Option<Block>)
        ensures
            match r {
                Some(b) => old(self)@.len() > 0 && b@ == old(self)@[0] && final(self)@ == old(
                    self,
                )@.drop_first(),
                None => old(self)@.len() == 0 && final(self)@ == old(self)@,
            },
    {
        let r = self.queue.pop_front();
        proof {
            match r {
                Some(ref b) => {
                    assert(old(self).queue.deep_view()[0] == old(self).queue@[0]@);
                    assert(self.queue.deep_view() =~~= old(self).queue.deep_view().drop_first());
                },
                None => {
                    assert(self.queue.deep_view() =~~= old(self).queue.deep_view());
                },
            }
        }
        r
    }

    /// Puts a block back at the head of the queue.
    pub fn reinsert_first_block(&mut self, block: Block)
        ensures
            final(self)@ == seq![block@] + old(self)@,
    {
        let ghost bv = block@;
        self.queue.push_front(block);
        proof {
            assert(self.queue.deep_view() =~~= seq![bv] + old(self).queue.deep_view());
        }
    }

    /// Whether any block is waiting.
    pub fn has_blocks(&self) -> (r: bool)
        ensures
            r == (self@.len() > 0),
    {
        self.queue.len() > 0
    }

    /// Drops the front block.
    pub fn consume_first_block(&mut self)
        ensures
            old(self)@.len() > 0 ==> final(self)@ == old(self)@.drop_first(),
            old(self)@.len() == 0 ==> final(self)@ == old(self)@,
    {
        let _ = self.queue.pop_front();
        proof {
            if old(self)@.len() > 0 {
                assert(self.queue.deep_view() =~~= old(self).queue.deep_view().drop_first());
            } else {
                assert(self.queue.deep_view() =~~= old(self).queue.deep_view());
            }
        }
    }
}

} // verus!
