use crate::command::Command;
use vstd::prelude::*;

verus! {

/// What visiting position `i` does to the depth of a forward scan that came
/// from position `i - 1`: a loop open adds one, a loop close takes one away,
/// and takes a second one away when it directly follows a loop open.
pub open spec fn forward_delta(prog: Seq<Command>, i: int) -> int {
    if prog[i] == Command::Ayaka {
        1
    } else if prog[i] == Command::Ao {
        if prog[i - 1] == Command::Ayaka {
            -2
        } else {
            -1
        }
    } else {
        0
    }
}

/// Where a forward scan ends that stands at `pos` with `depth > 0`.
///
/// Each step moves to `pos + 1` and applies `forward_delta`. Running off the
/// end leaves the pointer at the end. A depth of exactly zero resumes just past
/// the position that closed it; a depth below zero stays on that position.
pub open spec fn forward_scan(prog: Seq<Command>, pos: int, depth: int) -> int
    decreases prog.len() - pos,
{
    if pos + 1 >= prog.len() {
        prog.len() as int
    } else {
        let d = depth + forward_delta(prog, pos + 1);
        if d > 0 {
            forward_scan(prog, pos + 1, d)
        } else if d == 0 {
            pos + 2
        } else {
            pos + 1
        }
    }
}

/// The instruction pointer after a taken forward jump at `ip`: the first step
/// goes to `ip + 1` without looking at it, then the scan runs at depth one.
pub open spec fn forward_target(prog: Seq<Command>, ip: int) -> int {
    forward_scan(prog, ip + 1, 1)
}

/// What visiting position `i` does to the depth of a backward scan.
pub open spec fn backward_delta(prog: Seq<Command>, i: int) -> int {
    if prog[i] == Command::Ao {
        1
    } else if prog[i] == Command::Ayaka {
        -1
    } else {
        0
    }
}

/// Where a backward scan finds its match when it stands at `pos` with
/// `depth > 0`, if it finds one before it runs out of positions.
pub open spec fn backward_scan(prog: Seq<Command>, pos: int, depth: int) -> Option<int>
    decreases pos,
{
    if pos <= 0 {
        None
    } else {
        let d = depth + backward_delta(prog, pos - 1);
        if d == 0 {
            Some(pos - 1)
        } else {
            backward_scan(prog, pos - 1, d)
        }
    }
}

/// The position that a backward jump at `ip` matches: one step back without
/// looking, then the scan at depth one. `None` at position zero and where the
/// scan reaches position zero unmatched.
pub open spec fn backward_target(prog: Seq<Command>, ip: int) -> Option<int> {
    if ip <= 0 {
        None
    } else {
        backward_scan(prog, ip - 1, 1)
    }
}

/// Computes `forward_target`.
pub fn find_forward(prog: &Vec<Command>, ip: usize) -> (r: usize)
    requires
        ip < prog.len(),
    ensures
        r == forward_target(prog@, ip as int),
        ip < r <= prog.len(),
{
    let n: usize = prog.len();
    let mut pos: usize = ip + 1;
    let mut depth: usize = 1;
    while n - pos > 1
        invariant
            n == prog.len(),
            ip < pos <= n,
            1 <= depth <= pos - ip,
            forward_target(prog@, ip as int) == forward_scan(prog@, pos as int, depth as int),
        decreases n - pos,
    {
        let prev: Command = prog[pos];
        let cmd: Command = prog[pos + 1];
        if cmd == Command::Ayaka {
            depth = depth + 1;
        } else if cmd == Command::Ao {
            if prev == Command::Ayaka {
                if depth == 1 {
                    return pos + 1;
                }
                if depth == 2 {
                    return pos + 2;
                }
                depth = depth - 2;
            } else {
                if depth == 1 {
                    return pos + 2;
                }
                depth = depth - 1;
            }
        }
        pos = pos + 1;
    }
    n
}

/// Computes `backward_target`.
pub fn find_backward(prog: &Vec<Command>, ip: usize) -> (r: Option<usize>)
    requires
        ip <= prog.len(),
    ensures
        match r {
            Some(t) => backward_target(prog@, ip as int) == Some(t as int) && t + 2 <= ip,
            None => backward_target(prog@, ip as int) is None,
        },
{
    if ip == 0 {
        return None;
    }
    let mut pos: usize = ip - 1;
    let mut depth: usize = 1;
    while pos > 0
        invariant
            pos < ip <= prog.len(),
            1 <= depth <= ip - pos,
            backward_target(prog@, ip as int) == backward_scan(prog@, pos as int, depth as int),
        decreases pos,
    {
        pos = pos - 1;
        let cmd: Command = prog[pos];
        if cmd == Command::Ao {
            depth = depth + 1;
        } else if cmd == Command::Ayaka {
            if depth == 1 {
                return Some(pos);
            }
            depth = depth - 1;
        }
    }
    None
}

/// A forward scan ends past where it stands and no further than the end.
pub proof fn lemma_forward_scan_bounds(prog: Seq<Command>, pos: int, depth: int)
    requires
        0 <= pos < prog.len(),
    ensures
        pos < forward_scan(prog, pos, depth) <= prog.len(),
    decreases prog.len() - pos,
{
    if pos + 1 < prog.len() {
        let d = depth + forward_delta(prog, pos + 1);
        if d > 0 {
            lemma_forward_scan_bounds(prog, pos + 1, d);
        }
    }
}

/// A taken forward jump lands past the jump and no further than the end.
pub proof fn lemma_forward_target_bounds(prog: Seq<Command>, ip: int)
    requires
        0 <= ip < prog.len(),
    ensures
        ip < forward_target(prog, ip) <= prog.len(),
{
    if ip + 1 < prog.len() {
        lemma_forward_scan_bounds(prog, ip + 1, 1);
    }
}

/// A backward jump matches at least two positions below where it stands.
pub proof fn lemma_backward_target_below(prog: Seq<Command>, ip: int)
    ensures
        match backward_target(prog, ip) {
            Some(t) => 0 <= t <= ip - 2,
            None => true,
        },
{
    if ip > 0 {
        lemma_backward_scan_below(prog, ip - 1, 1);
    }
}

proof fn lemma_backward_scan_below(prog: Seq<Command>, pos: int, depth: int)
    ensures
        match backward_scan(prog, pos, depth) {
            Some(t) => 0 <= t < pos,
            None => true,
        },
    decreases pos,
{
    if pos > 0 {
        let d = depth + backward_delta(prog, pos - 1);
        if d != 0 {
            lemma_backward_scan_below(prog, pos - 1, d);
        }
    }
}

/// The depth of the forward scan of a jump at `ip` once it has visited
/// position `p`: one, and what each position after `ip + 1` up to `p` has
/// done to it.
pub open spec fn forward_depth(prog: Seq<Command>, ip: int, p: int) -> int
    decreases p - ip,
{
    if p <= ip + 1 {
        1
    } else {
        forward_depth(prog, ip, p - 1) + forward_delta(prog, p)
    }
}

/// The depth of the backward scan of a jump at `ip` once it has visited
/// position `t`: one, and what each position before `ip - 1` down to `t` has
/// done to it.
pub open spec fn backward_depth(prog: Seq<Command>, ip: int, t: int) -> int
    decreases ip - t,
{
    if t >= ip - 1 {
        1
    } else {
        backward_depth(prog, ip, t + 1) + backward_delta(prog, t)
    }
}

proof fn lemma_forward_scan_stops(prog: Seq<Command>, ip: int, pos: int, p: int)
    requires
        0 <= ip,
        ip + 1 <= pos < p < prog.len(),
        forward_depth(prog, ip, pos) > 0,
        forall|q: int| pos < q < p ==> #[trigger] forward_depth(prog, ip, q) > 0,
        forward_depth(prog, ip, p) <= 0,
    ensures
        forward_scan(prog, pos, forward_depth(prog, ip, pos)) == if forward_depth(prog, ip, p)
            == 0 {
            p + 1
        } else {
            p
        },
    decreases p - pos,
{
    if pos + 1 < p {
        assert(forward_depth(prog, ip, pos + 1) > 0);
        lemma_forward_scan_stops(prog, ip, pos + 1, p);
    }
}

proof fn lemma_forward_scan_runs_off(prog: Seq<Command>, ip: int, pos: int)
    requires
        0 <= ip,
        ip + 1 <= pos,
        forward_depth(prog, ip, pos) > 0,
        forall|q: int| pos < q < prog.len() ==> #[trigger] forward_depth(prog, ip, q) > 0,
    ensures
        forward_scan(prog, pos, forward_depth(prog, ip, pos)) == prog.len(),
    decreases prog.len() - pos,
{
    if pos + 1 < prog.len() {
        assert(forward_depth(prog, ip, pos + 1) > 0);
        lemma_forward_scan_runs_off(prog, ip, pos + 1);
    }
}

/// Where a taken forward jump lands, told by the depth alone. If `p` is the
/// first position after `ip + 1` at which the depth is no longer positive,
/// the jump lands just past `p` where the depth there is zero, and on `p`
/// where it is below zero.
pub proof fn law_forward_jump_stops(prog: Seq<Command>, ip: int, p: int)
    requires
        0 <= ip,
        ip + 1 < p < prog.len(),
        forall|q: int| ip + 1 < q < p ==> #[trigger] forward_depth(prog, ip, q) > 0,
        forward_depth(prog, ip, p) <= 0,
    ensures
        forward_target(prog, ip) == if forward_depth(prog, ip, p) == 0 {
            p + 1
        } else {
            p
        },
{
    lemma_forward_scan_stops(prog, ip, ip + 1, p);
}

/// If the depth stays positive at every position after `ip + 1`, a taken
/// forward jump lands on the end of the program.
pub proof fn law_forward_jump_runs_off(prog: Seq<Command>, ip: int)
    requires
        0 <= ip,
        forall|q: int| ip + 1 < q < prog.len() ==> #[trigger] forward_depth(prog, ip, q) > 0,
    ensures
        forward_target(prog, ip) == prog.len(),
{
    if ip + 1 < prog.len() {
        lemma_forward_scan_runs_off(prog, ip, ip + 1);
    }
}

proof fn lemma_backward_scan_stops(prog: Seq<Command>, ip: int, pos: int, t: int)
    requires
        0 <= t < pos <= ip - 1,
        forall|u: int| t < u < pos ==> #[trigger] backward_depth(prog, ip, u) != 0,
        backward_depth(prog, ip, t) == 0,
    ensures
        backward_scan(prog, pos, backward_depth(prog, ip, pos)) == Some(t),
    decreases pos - t,
{
    if t + 1 < pos {
        assert(backward_depth(prog, ip, pos - 1) != 0);
        lemma_backward_scan_stops(prog, ip, pos - 1, t);
    }
}

proof fn lemma_backward_scan_runs_off(prog: Seq<Command>, ip: int, pos: int)
    requires
        pos <= ip - 1,
        forall|u: int| 0 <= u < pos ==> #[trigger] backward_depth(prog, ip, u) != 0,
    ensures
        backward_scan(prog, pos, backward_depth(prog, ip, pos)) is None,
    decreases pos,
{
    if pos > 0 {
        assert(backward_depth(prog, ip, pos - 1) != 0);
        lemma_backward_scan_runs_off(prog, ip, pos - 1);
    }
}

/// What a backward jump matches, told by the depth alone: the nearest
/// position below `ip - 1` at which the depth is zero. That position holds a
/// loop open.
pub proof fn law_backward_jump_matches(prog: Seq<Command>, ip: int, t: int)
    requires
        0 <= t <= ip - 2,
        forall|u: int| t < u <= ip - 2 ==> #[trigger] backward_depth(prog, ip, u) != 0,
        backward_depth(prog, ip, t) == 0,
    ensures
        backward_target(prog, ip) == Some(t),
        prog[t] == Command::Ayaka,
{
    lemma_backward_scan_stops(prog, ip, ip - 1, t);
    if t + 1 <= ip - 2 {
        assert(backward_depth(prog, ip, t + 1) != 0);
    }
    lemma_backward_depth_positive(prog, ip, t + 1);
}

/// While no position visited has taken the depth of a backward scan to zero,
/// the depth is positive.
proof fn lemma_backward_depth_positive(prog: Seq<Command>, ip: int, t: int)
    requires
        forall|u: int| t <= u <= ip - 2 ==> #[trigger] backward_depth(prog, ip, u) != 0,
    ensures
        backward_depth(prog, ip, t) > 0,
    decreases ip - t,
{
    if t < ip - 1 {
        assert(backward_depth(prog, ip, t) != 0);
        lemma_backward_depth_positive(prog, ip, t + 1);
    }
}

/// If the depth is zero at no position below `ip - 1`, a backward jump
/// matches nothing.
pub proof fn law_backward_jump_unmatched(prog: Seq<Command>, ip: int)
    requires
        forall|u: int| 0 <= u <= ip - 2 ==> #[trigger] backward_depth(prog, ip, u) != 0,
    ensures
        backward_target(prog, ip) is None,
{
    if ip > 0 {
        lemma_backward_scan_runs_off(prog, ip, ip - 1);
    }
}

} // verus!
