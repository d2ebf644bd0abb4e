//! Scoring an answer that was written down.

use vstd::prelude::*;
use crate::helpers::red::{lemma_repeat_stops, repeat, value_at, Red};
use crate::qualification2017::model::Problem;
use crate::qualification2017::report::{evaluate, evaluation, rows, EvalError, Evaluation};

verus! {

/// Why an answer that was written down has no score.
#[derive(Clone, Copy, Debug, PartialEq, Eq, Structural)]
pub enum CheckError {
    /// A number is missing or is not a number.
    Malformed,
    /// The answer was read and is refused.
    Refused(EvalError),
}

/// The videos of one server: their number, then the videos.
pub open spec fn list_at(s: Seq<u8>, pos: int) -> Option<(Seq<usize>, int)> {
    match value_at::<usize>(s, pos) {
        Some((n, p1)) => repeat(s, p1, n as nat, |s: Seq<u8>, p: int| value_at::<usize>(s, p)),
        None => None,
    }
}

/// The answer that the text `s` writes down for `n_cache` servers: the
/// videos of each server in turn. What follows the last server is not
/// read.
pub open spec fn answer_of(s: Seq<u8>, n_cache: nat) -> Option<Seq<Seq<usize>>> {
    match repeat(s, 0, n_cache, |s: Seq<u8>, p: int| list_at(s, p)) {
        Some((answer, p)) => Some(answer),
        None => None,
    }
}

/// The score of the answer that the text `s` writes down: see
/// [`evaluation`].
pub open spec fn score_of(p: &Problem, s: Seq<u8>) -> Result<Evaluation, CheckError> {
    match answer_of(s, p.n_cache as nat) {
        None => Err(CheckError::Malformed),
        Some(answer) => match evaluation(p, answer) {
            Ok(e) => Ok(e),
            Err(e) => Err(CheckError::Refused(e)),
        },
    }
}

/// Reads the videos of one server.
fn read_list(red: &mut Red) -> (r: Option<Vec<usize>>)
    ensures
        final(red).bytes() == old(red).bytes(),
        match r {
            Some(list) => list_at(old(red).bytes(), old(red).pos()) == Some(
                (list@, final(red).pos()),
            ),
            None => list_at(old(red).bytes(), old(red).pos()) is None,
        },
{
    let ghost s = red.bytes();
    let n = match red.value::<usize>() {
        Some(v) => v,
        None => {
            return None;
        },
    };
    let ghost p1 = red.pos();
    let ghost one = |s: Seq<u8>, p: int| value_at::<usize>(s, p);
    let mut list: Vec<usize> = Vec::new();
    let mut k: usize = 0;
    while k < n
        invariant
            k <= n,
            red.bytes() == s,
            s == old(red).bytes(),
            one == |s: Seq<u8>, p: int| value_at::<usize>(s, p),
            repeat(s, p1, k as nat, one) == Some((list@, red.pos())),
            list_at(s, old(red).pos()) == repeat(s, p1, n as nat, one),
        decreases n - k,
    {
        match red.value::<usize>() {
            Some(video) => {
                list.push(video);
            },
            None => {
                proof {
                    lemma_repeat_stops(s, p1, (k + 1) as nat, n as nat, one);
                }
                return None;
            },
        }
        k = k + 1;
    }
    Some(list)
}

/// Reads the answer for `n_cache` servers from its text: see
/// [`answer_of`].
pub fn try_read_answer(n_cache: usize, bytes: Vec<u8>) -> (r: Option<Vec<Vec<usize>>>)
    ensures
        match r {
            Some(answer) => answer_of(bytes@, n_cache as nat) == Some(rows(answer@)),
            None => answer_of(bytes@, n_cache as nat) is None,
        },
{
    let ghost s = bytes@;
    let mut red = Red::new(bytes);
    let ghost one = |s: Seq<u8>, p: int| list_at(s, p);
    let mut answer: Vec<Vec<usize>> = Vec::new();
    let mut i: usize = 0;
    assert(rows(answer@) =~= Seq::<Seq<usize>>::empty());
    while i < n_cache
        invariant
            i <= n_cache,
            red.bytes() == s,
            s == bytes@,
            one == |s: Seq<u8>, p: int| list_at(s, p),
            repeat(s, 0, i as nat, one) == Some((rows(answer@), red.pos())),
        decreases n_cache - i,
    {
        let ghost before = rows(answer@);
        match read_list(&mut red) {
            Some(list) => {
                let ghost view = list@;
                answer.push(list);
                assert(rows(answer@) =~= before.push(view));
            },
            None => {
                proof {
                    lemma_repeat_stops(s, 0, (i + 1) as nat, n_cache as nat, one);
                }
                return None;
            },
        }
        i = i + 1;
    }
    Some(answer)
}

/// Reads the answer for `n_cache` servers from a text that writes one
/// down: see [`answer_of`].
pub fn read_answer(n_cache: usize, bytes: Vec<u8>) -> (answer: Vec<Vec<usize>>)
    requires
        answer_of(bytes@, n_cache as nat) is Some,
    ensures
        answer_of(bytes@, n_cache as nat) == Some(rows(answer@)),
{
    match try_read_answer(n_cache, bytes) {
        Some(answer) => answer,
        None => vstd::pervasive::unreached(),
    }
}

/// Scores the answer that `solution` writes down for the problem: see
/// [`score_of`]. It is refused where the text is cut short, and where the
/// answer overfills a server or holds a video that does not exist.
pub fn try_check(p: &Problem, solution: Vec<u8>) -> (r: Result<Evaluation, CheckError>)
    requires
        p.wf(),
    ensures
        r == score_of(p, solution@),
{
    let answer = match try_read_answer(p.n_cache, solution) {
        Some(answer) => answer,
        None => {
            return Err(CheckError::Malformed);
        },
    };
    match evaluate(p, &answer) {
        Ok(e) => Ok(e),
        Err(e) => Err(CheckError::Refused(e)),
    }
}

/// Scores an answer that can be scored: see [`score_of`].
pub fn check(p: &Problem, solution: Vec<u8>) -> (score: Evaluation)
    requires
        p.wf(),
        score_of(p, solution@) is Ok,
    ensures
        score_of(p, solution@) == Ok::<Evaluation, CheckError>(score),
{
    match try_check(p, solution) {
        Ok(score) => score,
        Err(_) => vstd::pervasive::unreached(),
    }
}

} // verus!
