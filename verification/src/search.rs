//! Iterative-deepening negamax search with alpha-beta pruning and
//! cooperative cancellation. When no cancellation is observed, the result
//! is pinned to a spec-level search function of the position, the table and
//! the bounds alone, so repeated searches agree move for move.

use vstd::prelude::*;

verus! {

use core::sync::atomic::{AtomicBool, Ordering};
use crate::board::{Board, BoardModel};
use crate::eval::{evaluate, evaluate_spec, is_victory};
use crate::magic::{cross_from_spec, CrossAlignment, MagicTable, OwnedAlignment};
use crate::movegen::{far_moves, near_moves, Movegen};
use crate::score::{kind_spec, mate_in_val, Score, ScoreKind};
use crate::types::{Square, Stone};

/// The shared cooperative cancellation flag: set by the search's own budget
/// checks or by an outside stop request, observed at every node.
pub struct StopFlag {
    flag: AtomicBool,
}

impl StopFlag {
    /// A fresh flag.
    pub fn new(initial: bool) -> StopFlag {
        StopFlag { flag: AtomicBool::new(initial) }
    }

    /// Request that the running search stop at its next check.
    pub fn request_stop(&self) {
        self.flag.store(true, Ordering::Relaxed);
    }

    /// Clear the flag before a new search.
    pub fn clear(&self) {
        self.flag.store(false, Ordering::Relaxed);
    }

    /// The current value of the flag. Another thread may change it at any
    /// moment, so nothing is known of the value.
    pub fn is_set(&self) -> bool {
        self.flag.load(Ordering::Relaxed)
    }
}

/// Declares std::time::Instant so a clock reading can sit in a field; its
/// value stays opaque and is only handed back to the clock wrappers below.
#[verifier::external_type_specification]
#[verifier::external_body]
pub struct ExInstant(std::time::Instant);

/// Relies on std::time::Instant::now: a reading of the monotonic clock. The
/// value depends on the moment of the call, so nothing is promised of it.
#[verifier::external_body]
fn instant_now() -> std::time::Instant {
    std::time::Instant::now()
}

/// Relies on Instant::elapsed and Duration::as_millis: the whole
/// milliseconds since `start`, saturated to 64 bits. The value depends on
/// the clock, so nothing is promised of it.
#[verifier::external_body]
fn elapsed_millis(start: &std::time::Instant) -> u64 {
    u64::try_from(start.elapsed().as_millis()).unwrap_or(u64::MAX)
}

/// The search configuration. Every field is optional; a missing value means
/// unrestricted. Times are in milliseconds.
pub struct Params {
    pub searchmoves: Option<Vec<Square>>,
    pub wtime: Option<u64>,
    pub btime: Option<u64>,
    pub winc: Option<u64>,
    pub binc: Option<u64>,
    pub depth: Option<u16>,
    pub nodes: Option<u64>,
    pub mate: Option<u16>,
    pub movetime: Option<u64>,
}

/// The configured depth limit: unrestricted means the largest depth.
pub open spec fn depth_limit(p: Params) -> u16 {
    match p.depth {
        Option::Some(d) => d,
        Option::None => 65535,
    }
}

impl Params {
    /// An unrestricted configuration.
    pub fn new() -> (r: Self)
        ensures
            r.searchmoves is None,
            r.wtime is None,
            r.btime is None,
            r.winc is None,
            r.binc is None,
            r.depth is None,
            r.nodes is None,
            r.mate is None,
            r.movetime is None,
    {
        Params {
            searchmoves: Option::None,
            wtime: Option::None,
            btime: Option::None,
            winc: Option::None,
            binc: Option::None,
            depth: Option::None,
            nodes: Option::None,
            mate: Option::None,
            movetime: Option::None,
        }
    }

    /// Restrict the root to the given candidate moves.
    pub fn set_searchmoves(&mut self, searchmoves: &[Square])
        ensures
            *final(self) == (Params { searchmoves: final(self).searchmoves, ..*old(self) }),
            final(self).searchmoves matches Option::Some(v) && v@ == searchmoves@,
    {
        let mut v: Vec<Square> = Vec::new();
        let mut i: usize = 0;
        while i < searchmoves.len()
            invariant
                i <= searchmoves@.len(),
                v@ == searchmoves@.take(i as int),
            decreases searchmoves@.len() - i,
        {
            v.push(searchmoves[i]);
            proof {
                assert(v@ =~= searchmoves@.take(i + 1));
            }
            i = i + 1;
        }
        proof {
            assert(searchmoves@.take(searchmoves@.len() as int) =~= searchmoves@);
        }
        self.searchmoves = Option::Some(v);
    }

    /// Set White's remaining clock time, in milliseconds.
    pub fn set_wtime(&mut self, wtime: u64)
        ensures
            *final(self) == (Params { wtime: Option::Some(wtime), ..*old(self) }),
    {
        self.wtime = Option::Some(wtime);
    }

    /// Set Black's remaining clock time, in milliseconds.
    pub fn set_btime(&mut self, btime: u64)
        ensures
            *final(self) == (Params { btime: Option::Some(btime), ..*old(self) }),
    {
        self.btime = Option::Some(btime);
    }

    /// Set White's per-move increment, in milliseconds.
    pub fn set_winc(&mut self, winc: u64)
        ensures
            *final(self) == (Params { winc: Option::Some(winc), ..*old(self) }),
    {
        self.winc = Option::Some(winc);
    }

    /// Set Black's per-move increment, in milliseconds.
    pub fn set_binc(&mut self, binc: u64)
        ensures
            *final(self) == (Params { binc: Option::Some(binc), ..*old(self) }),
    {
        self.binc = Option::Some(binc);
    }

    /// Set the depth limit.
    pub fn set_depth(&mut self, depth: u16)
        ensures
            *final(self) == (Params { depth: Option::Some(depth), ..*old(self) }),
    {
        self.depth = Option::Some(depth);
    }

    /// The depth limit; unrestricted means the largest depth.
    pub fn depth(&self) -> (r: u16)
        ensures
            r == depth_limit(*self),
    {
        match self.depth {
            Option::Some(d) => d,
            Option::None => u16::MAX,
        }
    }

    /// Set the node budget.
    pub fn set_nodes(&mut self, nodes: u64)
        ensures
            *final(self) == (Params { nodes: Option::Some(nodes), ..*old(self) }),
    {
        self.nodes = Option::Some(nodes);
    }

    /// The node budget; unrestricted means the largest count.
    pub fn nodes(&self) -> (r: u64)
        ensures
            r == (match self.nodes {
                Option::Some(n) => n,
                Option::None => u64::MAX,
            }),
    {
        match self.nodes {
            Option::Some(n) => n,
            Option::None => u64::MAX,
        }
    }

    /// Set the mate-distance target.
    pub fn set_mate(&mut self, mate: u16)
        ensures
            *final(self) == (Params { mate: Option::Some(mate), ..*old(self) }),
    {
        self.mate = Option::Some(mate);
    }

    /// Set the fixed move time, in milliseconds.
    pub fn set_movetime(&mut self, movetime: u64)
        ensures
            *final(self) == (Params { movetime: Option::Some(movetime), ..*old(self) }),
    {
        self.movetime = Option::Some(movetime);
    }

    /// The fixed move time; unrestricted means the largest duration.
    pub fn movetime(&self) -> (r: u64)
        ensures
            r == (match self.movetime {
                Option::Some(t) => t,
                Option::None => u64::MAX,
            }),
    {
        match self.movetime {
            Option::Some(t) => t,
            Option::None => u64::MAX,
        }
    }
}

impl Default for Params {
    /// An unrestricted configuration.
    fn default() -> (r: Self)
        ensures
            r.depth is None,
            r.nodes is None,
            r.movetime is None,
            r.searchmoves is None,
    {
        Params::new()
    }
}

/// The running statistics of one search invocation, and whether this search
/// has observed a cancellation.
pub struct SearchData {
    pub start: std::time::Instant,
    pub node_count: u64,
    pub iter_depth: u16,
    pub seldepth: u16,
    pub check_in: u16,
    pub bestmove: Square,
    pub stopped: bool,
}

impl SearchData {
    /// Fresh statistics, started now.
    pub fn new() -> (r: Self)
        ensures
            r.node_count == 0,
            r.iter_depth == 0,
            r.seldepth == 0,
            r.check_in == 0,
            r.bestmove == Square(0),
            r.stopped == false,
    {
        SearchData {
            start: instant_now(),
            node_count: 0,
            iter_depth: 0,
            seldepth: 0,
            check_in: 0,
            bestmove: Square(0),
            stopped: false,
        }
    }

    /// Every 256 calls, compare the node count and the elapsed time against
    /// the configured budgets and request a stop if either is exceeded.
    pub fn check_time(&mut self, params: &Params, stop: &StopFlag)
        ensures
            final(self).check_in == (if old(self).check_in != 0 {
                old(self).check_in - 1
            } else {
                256int
            }),
            final(self).node_count == old(self).node_count,
            final(self).iter_depth == old(self).iter_depth,
            final(self).seldepth == old(self).seldepth,
            final(self).bestmove == old(self).bestmove,
            final(self).stopped == old(self).stopped,
            final(self).start == old(self).start,
    {
        if self.check_in != 0 {
            self.check_in = self.check_in - 1;
        } else {
            self.check_in = 256;
            let over_nodes = self.node_count >= params.nodes();
            let over_time = elapsed_millis(&self.start) >= params.movetime();
            if over_nodes || over_time {
                stop.request_stop();
            }
        }
    }

    /// Milliseconds since this search started.
    pub fn elapsed(&self) -> u64 {
        elapsed_millis(&self.start)
    }

    /// Nodes visited so far.
    pub fn node_count(&self) -> (r: u64)
        ensures
            r == self.node_count,
    {
        self.node_count
    }

    /// Count one more visited node, staying put at the largest count.
    pub fn inc_node_count(&mut self)
        ensures
            *final(self) == (SearchData { node_count: final(self).node_count, ..*old(self) }),
            final(self).node_count == (if old(self).node_count < u64::MAX {
                old(self).node_count + 1
            } else {
                u64::MAX as int
            }),
    {
        if self.node_count < u64::MAX {
            self.node_count = self.node_count + 1;
        }
    }

    /// The current iteration depth.
    pub fn iter_depth(&self) -> (r: u16)
        ensures
            r == self.iter_depth,
    {
        self.iter_depth
    }

    /// Move to the next iteration depth.
    pub fn inc_iter_depth(&mut self)
        requires
            old(self).iter_depth < u16::MAX,
        ensures
            *final(self) == (SearchData { iter_depth: final(self).iter_depth, ..*old(self) }),
            final(self).iter_depth == old(self).iter_depth + 1,
    {
        self.iter_depth = self.iter_depth + 1;
    }

    /// The deepest ply reached so far.
    pub fn seldepth(&self) -> (r: u16)
        ensures
            r == self.seldepth,
    {
        self.seldepth
    }

    /// Widen the selective depth to at least `depth`.
    pub fn set_seldepth(&mut self, depth: u16)
        ensures
            *final(self) == (SearchData { seldepth: final(self).seldepth, ..*old(self) }),
            final(self).seldepth == (if old(self).seldepth >= depth {
                old(self).seldepth
            } else {
                depth
            }),
    {
        if self.seldepth < depth {
            self.seldepth = depth;
        }
    }

    /// The best root move found so far.
    pub fn bestmove(&self) -> (r: Square)
        ensures
            r == self.bestmove,
    {
        self.bestmove
    }

    /// Record a new best root move.
    pub fn set_bestmove(&mut self, mv: Square)
        ensures
            *final(self) == (SearchData { bestmove: mv, ..*old(self) }),
    {
        self.bestmove = mv;
    }
}

/// The mate distance recorded for a win found at `ply`: one deeper than the
/// ply, reduced into the 8-bit mate encoding.
pub open spec fn mate_ply(ply: u16) -> int {
    (ply + 1) % 256
}

/// The score and root choice a search step yields.
#[verifier::ext_equal]
pub ghost struct SearchOutcome {
    pub score: int,
    pub best: Option<Square>,
}

/// The negamax value of a position searched to `depth`, with alpha-beta
/// bounds, from the side to move's point of view: the static evaluation at
/// depth zero, else the fold over the candidate moves (far candidates when
/// 5 or more plies remain, near candidates otherwise). The `best` field is
/// the last move that raised alpha, for the root's choice.
pub open spec fn spec_search(
    m: BoardModel,
    table: Seq<OwnedAlignment>,
    depth: u16,
    alpha: int,
    beta: int,
    ply: u16,
) -> SearchOutcome
    decreases depth, 1int, 0int,
{
    if depth == 0 {
        SearchOutcome { score: evaluate_spec(m, table), best: Option::None }
    } else {
        let moves = if depth >= 5 {
            far_moves(m)
        } else {
            near_moves(m)
        };
        spec_search_moves(m, table, moves, 0, depth, alpha, -32767, Option::None, beta, ply)
    }
}

/// One step of the candidate fold: push the move; a move that completes a
/// five wins at once with a mate score scaled to the ply; otherwise recurse
/// negated with swapped bounds and apply the alpha-beta update, cutting off
/// above beta. A candidate that does not name a valid empty square is
/// skipped; the generators never produce one.
pub open spec fn spec_search_moves(
    m: BoardModel,
    table: Seq<OwnedAlignment>,
    moves: Seq<Square>,
    i: int,
    depth: u16,
    alpha: int,
    best: int,
    bm: Option<Square>,
    beta: int,
    ply: u16,
) -> SearchOutcome
    decreases depth, 0int, moves.len() - i,
{
    if i < 0 || i >= moves.len() || depth < 1 {
        SearchOutcome { score: best, best: bm }
    } else {
        let mv = moves[i];
        if !(mv.0 < 361 && m.stones[mv.0 as int] == Stone::Empty) {
            spec_search_moves(m, table, moves, i + 1, depth, alpha, best, bm, beta, ply)
        } else {
            let pushed = m.do_push(mv.0 as int);
            if cross_from_spec(pushed.stones, mv.0 as int, table) == CrossAlignment::Five {
                SearchOutcome { score: mate_in_val(mate_ply(ply)), best: Option::Some(mv) }
            } else {
                let sub = spec_search(
                    pushed,
                    table,
                    (depth - 1) as u16,
                    -beta,
                    -alpha,
                    (ply + 1) as u16,
                );
                let score = -sub.score;
                if score > best {
                    if score > alpha {
                        if score > beta {
                            SearchOutcome { score, best: Option::Some(mv) }
                        } else {
                            spec_search_moves(
                                m,
                                table,
                                moves,
                                i + 1,
                                depth,
                                score,
                                score,
                                Option::Some(mv),
                                beta,
                                ply,
                            )
                        }
                    } else {
                        spec_search_moves(
                            m,
                            table,
                            moves,
                            i + 1,
                            depth,
                            alpha,
                            score,
                            bm,
                            beta,
                            ply,
                        )
                    }
                } else {
                    spec_search_moves(m, table, moves, i + 1, depth, alpha, best, bm, beta, ply)
                }
            }
        }
    }
}

/// Unfold one level of `spec_search` above depth zero.
proof fn lemma_spec_search_unfold(
    m: BoardModel,
    t: Seq<OwnedAlignment>,
    depth: u16,
    alpha: int,
    beta: int,
    ply: u16,
)
    requires
        depth >= 1,
    ensures
        spec_search(m, t, depth, alpha, beta, ply) == spec_search_moves(
            m,
            t,
            if depth >= 5 {
                far_moves(m)
            } else {
                near_moves(m)
            },
            0,
            depth,
            alpha,
            -32767,
            Option::None,
            beta,
            ply,
        ),
{
}

/// The candidate fold past the end of the list yields the accumulator.
proof fn lemma_fold_end(
    m: BoardModel,
    t: Seq<OwnedAlignment>,
    moves: Seq<Square>,
    i: int,
    depth: u16,
    alpha: int,
    best: int,
    bm: Option<Square>,
    beta: int,
    ply: u16,
)
    requires
        i >= moves.len(),
    ensures
        spec_search_moves(m, t, moves, i, depth, alpha, best, bm, beta, ply) == (SearchOutcome {
            score: best,
            best: bm,
        }),
{
}

/// The candidate fold skips a candidate that is not a valid empty square.
proof fn lemma_fold_skip(
    m: BoardModel,
    t: Seq<OwnedAlignment>,
    moves: Seq<Square>,
    i: int,
    depth: u16,
    alpha: int,
    best: int,
    bm: Option<Square>,
    beta: int,
    ply: u16,
)
    requires
        0 <= i < moves.len(),
        depth >= 1,
        !(moves[i].0 < 361 && m.stones[moves[i].0 as int] == Stone::Empty),
    ensures
        spec_search_moves(m, t, moves, i, depth, alpha, best, bm, beta, ply)
            == spec_search_moves(m, t, moves, i + 1, depth, alpha, best, bm, beta, ply),
{
}

/// A candidate that completes a five ends the fold with the mate score and
/// itself as the choice.
proof fn lemma_fold_victory(
    m: BoardModel,
    t: Seq<OwnedAlignment>,
    moves: Seq<Square>,
    i: int,
    depth: u16,
    alpha: int,
    best: int,
    bm: Option<Square>,
    beta: int,
    ply: u16,
)
    requires
        0 <= i < moves.len(),
        depth >= 1,
        moves[i].0 < 361 && m.stones[moves[i].0 as int] == Stone::Empty,
        cross_from_spec(m.do_push(moves[i].0 as int).stones, moves[i].0 as int, t)
            == CrossAlignment::Five,
    ensures
        spec_search_moves(m, t, moves, i, depth, alpha, best, bm, beta, ply) == (SearchOutcome {
            score: mate_in_val(mate_ply(ply)),
            best: Option::Some(moves[i]),
        }),
{
}

/// A candidate searched below yields the alpha-beta update with the negated
/// subtree score.
proof fn lemma_fold_value(
    m: BoardModel,
    t: Seq<OwnedAlignment>,
    moves: Seq<Square>,
    i: int,
    depth: u16,
    alpha: int,
    best: int,
    bm: Option<Square>,
    beta: int,
    ply: u16,
    sc: int,
)
    requires
        0 <= i < moves.len(),
        depth >= 1,
        moves[i].0 < 361 && m.stones[moves[i].0 as int] == Stone::Empty,
        cross_from_spec(m.do_push(moves[i].0 as int).stones, moves[i].0 as int, t)
            != CrossAlignment::Five,
        sc == -spec_search(
            m.do_push(moves[i].0 as int),
            t,
            (depth - 1) as u16,
            -beta,
            -alpha,
            (ply + 1) as u16,
        ).score,
    ensures
        spec_search_moves(m, t, moves, i, depth, alpha, best, bm, beta, ply) == (if sc > best {
            if sc > alpha {
                if sc > beta {
                    SearchOutcome { score: sc, best: Option::Some(moves[i]) }
                } else {
                    spec_search_moves(
                        m,
                        t,
                        moves,
                        i + 1,
                        depth,
                        sc,
                        sc,
                        Option::Some(moves[i]),
                        beta,
                        ply,
                    )
                }
            } else {
                spec_search_moves(m, t, moves, i + 1, depth, alpha, sc, bm, beta, ply)
            }
        } else {
            spec_search_moves(m, t, moves, i + 1, depth, alpha, best, bm, beta, ply)
        }),
{
}

/// What one candidate move yielded: the search was cancelled, the move
/// completes a five at once, or the negated value of the subtree below it.
enum StepResult {
    Stopped,
    Victory,
    Value(Score),
}

/// Try one candidate move: push it, count the node, return at once on an
/// immediate five, otherwise search the subtree with negated, swapped
/// bounds; the move is taken back either way and the board comes back
/// exactly as it went in.
fn search_move(
    board: &mut Board,
    data: &mut SearchData,
    params: &Params,
    stop: &StopFlag,
    table: &MagicTable,
    depth: u16,
    cur_alpha: Score,
    beta: Score,
    ply: u16,
    mv: Square,
) -> (r: StepResult)
    requires
        old(board).wf(),
        table.wf(),
        mv.0 < 361,
        old(board)@.stones[mv.0 as int] == Stone::Empty,
        -32767 <= cur_alpha.0 <= 32767,
        -32767 <= beta.0 <= 32767,
        ply + depth <= 65535,
        1 <= depth,
    ensures
        final(board).wf(),
        final(board)@ == old(board)@,
        final(board).black == old(board).black,
        final(board).white == old(board).white,
        final(data).start == old(data).start,
        final(data).iter_depth == old(data).iter_depth,
        final(data).bestmove == old(data).bestmove,
        old(data).stopped ==> final(data).stopped,
        r is Stopped ==> final(data).stopped,
        !final(data).stopped ==> ({
            let pushed = old(board)@.do_push(mv.0 as int);
            let won = cross_from_spec(pushed.stones, mv.0 as int, table.entries@)
                == CrossAlignment::Five;
            match r {
                StepResult::Stopped => false,
                StepResult::Victory => won,
                StepResult::Value(s) => !won && -32767 <= s.0 <= 32767 && s.0 as int
                    == -spec_search(
                    pushed,
                    table.entries@,
                    (depth - 1) as u16,
                    -beta.0 as int,
                    -cur_alpha.0 as int,
                    (ply + 1) as u16,
                ).score,
            }
        }),
    decreases depth, 0int,
{
    let ghost m0 = old(board)@;
    board.push(mv);
    data.inc_node_count();
    if is_victory(board, mv, table) {
        board.pop(mv);
        proof {
            crate::board::lemma_push_pop_round_trip(m0, mv.0 as int);
            crate::board::lemma_model_determines_bitboards(*board, *old(board));
        }
        return StepResult::Victory;
    }
    let sub = search(
        board,
        data,
        params,
        stop,
        table,
        depth - 1,
        beta.neg(),
        cur_alpha.neg(),
        ply + 1,
    );
    let score = sub.neg();
    board.pop(mv);
    proof {
        crate::board::lemma_push_pop_round_trip(m0, mv.0 as int);
        crate::board::lemma_model_determines_bitboards(*board, *old(board));
    }
    if stop.is_set() {
        data.stopped = true;
        return StepResult::Stopped;
    }
    StepResult::Value(score)
}

/// The recursive alpha-beta step. The board comes back exactly as it went
/// in. Once a cancellation has been observed, `stopped` stays set and the
/// returned score is the neutral zero; while none has been observed, the
/// result and the recorded root move are exactly those of `spec_search` on
/// the entry position, so the search is a function of the position, the
/// table, the bounds and the depth alone.
#[verifier::spinoff_prover]
#[verifier::rlimit(100)]
pub fn search(
    board: &mut Board,
    data: &mut SearchData,
    params: &Params,
    stop: &StopFlag,
    table: &MagicTable,
    depth: u16,
    alpha: Score,
    beta: Score,
    ply: u16,
) -> (r: Score)
    requires
        old(board).wf(),
        table.wf(),
        -32767 <= alpha.0 <= 32767,
        -32767 <= beta.0 <= 32767,
        ply + depth <= 65535,
    ensures
        final(board).wf(),
        final(board)@ == old(board)@,
        final(board).black == old(board).black,
        final(board).white == old(board).white,
        final(data).start == old(data).start,
        final(data).iter_depth == old(data).iter_depth,
        old(data).stopped ==> final(data).stopped,
        -32767 <= r.0 <= 32767,
        ply != 0 ==> final(data).bestmove == old(data).bestmove,
        !final(data).stopped ==> ({
            let outcome = spec_search(
                old(board)@,
                table.entries@,
                depth,
                alpha.0 as int,
                beta.0 as int,
                ply,
            );
            &&& r.0 == outcome.score
            &&& (ply == 0 ==> final(data).bestmove == (match outcome.best {
                Option::Some(mv) => mv,
                Option::None => old(data).bestmove,
            }))
        }),
    decreases depth, 1int,
{
    let ghost m0 = old(board)@;
    let ghost t = table.entries@;
    data.check_time(params, stop);
    if stop.is_set() {
        data.stopped = true;
        return Score::cp(0);
    }
    data.set_seldepth(ply);
    if depth == 0 {
        return evaluate(board, table);
    }
    let mut movegen = Movegen::new();
    if depth >= 5 {
        movegen.generate_far(board);
    } else {
        movegen.generate_near(board);
    }
    let ghost moves = movegen.move_list@;
    proof {
        assert(moves =~= if depth >= 5 {
            far_moves(m0)
        } else {
            near_moves(m0)
        });
    }
    let ghost total = spec_search_moves(
        m0,
        t,
        moves,
        0,
        depth,
        alpha.0 as int,
        -32767,
        Option::None,
        beta.0 as int,
        ply,
    );
    proof {
        lemma_spec_search_unfold(m0, t, depth, alpha.0 as int, beta.0 as int, ply);
        assert(spec_search(m0, t, depth, alpha.0 as int, beta.0 as int, ply) == total);
    }
    let mut bestscore = Score::min();
    let mut cur_alpha = alpha;
    let ghost mut bm: Option<Square> = Option::None;
    loop
        invariant_except_break
            !data.stopped ==> spec_search_moves(
                m0,
                t,
                moves,
                movegen.move_idx as int,
                depth,
                cur_alpha.0 as int,
                bestscore.0 as int,
                bm,
                beta.0 as int,
                ply,
            ) == total,
        invariant
            spec_search(m0, t, depth, alpha.0 as int, beta.0 as int, ply) == total,
            board.wf(),
            board@ == m0,
            board.black == old(board).black,
            board.white == old(board).white,
            table.wf(),
            t == table.entries@,
            m0 == old(board)@,
            data.start == old(data).start,
            data.iter_depth == old(data).iter_depth,
            old(data).stopped ==> data.stopped,
            ply != 0 ==> data.bestmove == old(data).bestmove,
            movegen.move_list@ == moves,
            movegen.move_idx <= moves.len(),
            1 <= depth,
            ply + depth <= 65535,
            -32767 <= cur_alpha.0 <= 32767,
            -32767 <= beta.0 <= 32767,
            -32767 <= bestscore.0 <= 32767,
            ply == 0 ==> data.bestmove == (match bm {
                Option::Some(mv) => mv,
                Option::None => old(data).bestmove,
            }),
        ensures
            board.wf(),
            board@ == m0,
            board.black == old(board).black,
            board.white == old(board).white,
            data.start == old(data).start,
            data.iter_depth == old(data).iter_depth,
            old(data).stopped ==> data.stopped,
            ply != 0 ==> data.bestmove == old(data).bestmove,
            -32767 <= bestscore.0 <= 32767,
            !data.stopped ==> bestscore.0 == total.score && (ply == 0 ==> data.bestmove == (
            match total.best {
                Option::Some(mv) => mv,
                Option::None => old(data).bestmove,
            })),
        decreases moves.len() - movegen.move_idx,
    {
        let ghost i = movegen.move_idx as int;
        let ghost a0 = cur_alpha.0 as int;
        let ghost b0 = bestscore.0 as int;
        let ghost bm0 = bm;
        let ghost fold0 = spec_search_moves(m0, t, moves, i, depth, a0, b0, bm0, beta.0 as int, ply);
        let next_move = movegen.next();
        match next_move {
            Option::Some(mv) => {
                proof {
                    assert(mv == moves[i]);
                }
                let valid = mv.value() < 361 && board.stone_at(mv) == Stone::Empty;
                if valid {
                    match search_move(
                        board, data, params, stop, table, depth, cur_alpha, beta, ply, mv) {
                        StepResult::Stopped => {
                            return Score::cp(0);
                        },
                        StepResult::Victory => {
                            if ply == 0 {
                                data.set_bestmove(mv);
                            }
                            let mp: u8 = ((ply as u32 + 1) % 256) as u8;
                            proof {
                                if !data.stopped {
                                    lemma_fold_victory(
                                        m0, t, moves, i, depth, a0, b0, bm0, beta.0 as int, ply);
                                    assert(fold0 == SearchOutcome {
                                        score: mate_in_val(mate_ply(ply)),
                                        best: Option::Some(mv),
                                    });
                                    assert(mp as int == mate_ply(ply));
                                }
                            }
                            return Score::mate_in(mp);
                        },
                        StepResult::Value(score) => {
                            if score.gt(bestscore) {
                                bestscore = score;
                                if score.gt(cur_alpha) {
                                    cur_alpha = score;
                                    if ply == 0 {
                                        data.set_bestmove(mv);
                                    }
                                    proof {
                                        bm = Option::Some(mv);
                                    }
                                    if score.gt(beta) {
                                        proof {
                                            if !data.stopped {
                                                lemma_fold_value(
                                                    m0, t, moves, i, depth, a0, b0, bm0,
                                                    beta.0 as int, ply, score.0 as int);
                                                assert(fold0 == SearchOutcome {
                                                    score: score.0 as int,
                                                    best: Option::Some(mv),
                                                });
                                            }
                                        }
                                        break ;
                                    }
                                }
                            }
                            proof {
                                if !data.stopped {
                                    lemma_fold_value(
                                        m0, t, moves, i, depth, a0, b0, bm0, beta.0 as int, ply,
                                        score.0 as int);
                                    assert(spec_search_moves(
                                        m0,
                                        t,
                                        moves,
                                        i + 1,
                                        depth,
                                        cur_alpha.0 as int,
                                        bestscore.0 as int,
                                        bm,
                                        beta.0 as int,
                                        ply,
                                    ) == fold0);
                                }
                            }
                        },
                    }
                } else {
                    proof {
                        if !data.stopped {
                            lemma_fold_skip(
                                m0, t, moves, i, depth, a0, b0, bm0, beta.0 as int, ply);
                            assert(spec_search_moves(
                                m0,
                                t,
                                moves,
                                i + 1,
                                depth,
                                cur_alpha.0 as int,
                                bestscore.0 as int,
                                bm,
                                beta.0 as int,
                                ply,
                            ) == fold0);
                        }
                    }
                }
            },
            Option::None => {
                proof {
                    if !data.stopped {
                        lemma_fold_end(
                            m0, t, moves, i, depth, cur_alpha.0 as int, bestscore.0 as int, bm,
                            beta.0 as int, ply);
                        assert(fold0 == SearchOutcome {
                            score: bestscore.0 as int,
                            best: bm,
                        });
                    }
                }
                break ;
            },
        }
    }
    bestscore
}


/// The move iterative deepening has settled on after the iterations up to
/// depth `d`: the root choice of the deepest completed search that raised
/// alpha, square 0 before any did.
pub open spec fn iter_best(m: BoardModel, t: Seq<OwnedAlignment>, d: int) -> Square
    decreases d,
{
    if d <= 0 {
        Square(0)
    } else {
        match spec_search(m, t, d as u16, -32767, 32767, 0).best {
            Option::Some(mv) => mv,
            Option::None => iter_best(m, t, d - 1),
        }
    }
}

/// One progress record, emitted per completed depth iteration.
#[derive(Clone, Copy, Debug, PartialEq, Eq, Structural)]
pub struct SearchInfo {
    pub depth: u16,
    pub seldepth: u16,
    pub score: ScoreKind,
    pub nodes: u64,
    pub nps: u64,
    pub time_ms: u64,
    pub bestmove: Square,
}

/// Visited nodes per second, from a node count and elapsed milliseconds; a
/// zero duration counts as one millisecond, and the rate saturates.
pub open spec fn nps_spec(nodes: u64, ms: u64) -> int {
    let d: int = if ms == 0 {
        1
    } else {
        ms as int
    };
    let v = nodes * 1000 / d;
    if v > u64::MAX {
        u64::MAX as int
    } else {
        v
    }
}

/// Visited nodes per second.
fn nps_of(nodes: u64, ms: u64) -> (r: u64)
    ensures
        r as int == nps_spec(nodes, ms),
{
    let d: u128 = if ms == 0 {
        1
    } else {
        ms as u128
    };
    let v: u128 = nodes as u128 * 1000 / d;
    proof {
        assert(nodes as int * 1000 <= u128::MAX) by (nonlinear_arith)
            requires
                nodes <= u64::MAX,
        ;
        assert(v as int == (nodes as int * 1000) / (d as int));
        vstd::arithmetic::div_mod::lemma_div_is_ordered_by_denominator(
            nodes as int * 1000, 1, d as int);
    }
    if v > u64::MAX as u128 {
        u64::MAX
    } else {
        v as u64
    }
}

/// The iterative-deepening driver: search the position to depth 1, 2 and so
/// on while the depth limit allows and no cancellation has been observed,
/// recording one progress record per completed iteration; an iteration that
/// observed a cancellation discards its partial best-move update, so the
/// last completed iteration's move stays authoritative. Each kept record's
/// score and best move are exactly those of `spec_search` at the record's
/// depth, and the returned move is the choice after the kept iterations.
pub fn run_search(board: &Board, params: &Params, stop: &StopFlag, table: &MagicTable) -> (r: (
    Vec<SearchInfo>,
    Square,
))
    requires
        board.wf(),
        table.wf(),
    ensures
        r.0@.len() <= depth_limit(*params),
        forall|k: int| 0 <= k < r.0@.len() ==> (#[trigger] r.0@[k]).depth == k + 1,
        forall|k: int|
            0 <= k < r.0@.len() ==> (#[trigger] r.0@[k]).score == kind_spec(
                spec_search(board@, table.entries@, (k + 1) as u16, -32767, 32767, 0).score,
            ),
        forall|k: int|
            0 <= k < r.0@.len() ==> (#[trigger] r.0@[k]).bestmove == iter_best(
                board@,
                table.entries@,
                k + 1,
            ),
        r.1 == iter_best(board@, table.entries@, r.0@.len() as int),
{
    let ghost m = board@;
    let ghost t = table.entries@;
    let mut data = SearchData::new();
    let mut work = board.duplicate();
    stop.clear();
    let mut infos: Vec<SearchInfo> = Vec::new();
    while data.iter_depth() < params.depth()
        invariant
            work.wf(),
            table.wf(),
            m == board@,
            t == table.entries@,
            work@ == m,
            !data.stopped,
            data.iter_depth == infos@.len(),
            infos@.len() <= depth_limit(*params),
            forall|k: int| 0 <= k < infos@.len() ==> (#[trigger] infos@[k]).depth == k + 1,
            forall|k: int|
                0 <= k < infos@.len() ==> (#[trigger] infos@[k]).score == kind_spec(
                    spec_search(m, t, (k + 1) as u16, -32767, 32767, 0).score,
                ),
            forall|k: int|
                0 <= k < infos@.len() ==> (#[trigger] infos@[k]).bestmove == iter_best(
                    m,
                    t,
                    k + 1,
                ),
            data.bestmove == iter_best(m, t, infos@.len() as int),
        decreases depth_limit(*params) - data.iter_depth,
    {
        let prev_best = data.bestmove();
        data.inc_iter_depth();
        data.set_seldepth(0);
        let iter_depth = data.iter_depth();
        let score = search(
            &mut work,
            &mut data,
            params,
            stop,
            table,
            iter_depth,
            Score::min(),
            Score::max(),
            0,
        );
        if data.stopped {
            // The iteration observed a cancellation: discard its partial
            // best-move update and keep the last completed choice.
            data.set_bestmove(prev_best);
            return (infos, prev_best);
        }
        let elapsed = data.elapsed();
        let info = SearchInfo {
            depth: data.iter_depth(),
            seldepth: data.seldepth(),
            score: score.kind(),
            nodes: data.node_count(),
            nps: nps_of(data.node_count(), elapsed),
            time_ms: elapsed,
            bestmove: data.bestmove(),
        };
        infos.push(info);
        if stop.is_set() {
            // An outside stop arrived after the iteration completed; the
            // completed iteration stays authoritative.
            return (infos, data.bestmove());
        }
    }
    let chosen = data.bestmove();
    (infos, chosen)
}

/// Search determinism: with a fixed depth and no cancellation, the
/// contract of `search` pins its result to `spec_search` of the position
/// alone, so any two completed searches of the same position, table, bounds
/// and depth return the same score and the same root choice.
pub proof fn lemma_search_deterministic(
    m: BoardModel,
    table: Seq<OwnedAlignment>,
    depth: u16,
    alpha: int,
    beta: int,
    ply: u16,
    r1: SearchOutcome,
    r2: SearchOutcome,
)
    requires
        r1 == spec_search(m, table, depth, alpha, beta, ply),
        r2 == spec_search(m, table, depth, alpha, beta, ply),
    ensures
        r1.score == r2.score,
        r1.best == r2.best,
{
}

} // verus!
