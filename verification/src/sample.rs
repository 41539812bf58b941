//! The resampling core shared by every collector's stream: a failed probe
//! yields no sample for its cycle, a successful one yields its snapshot, and
//! no error ever reaches the consumer.  The surrounding program drives the
//! cycles and the delays; what each cycle emits is decided here.

use vstd::prelude::*;

verus! {

/// What one polling cycle emits: the snapshot on success, nothing on
/// failure.
pub fn sample_step<T, E>(outcome: Result<T, E>) -> (r: Option<T>)
    ensures
        match outcome {
            Ok(v) => r == Some(v),
            Err(_) => r is None,
        },
{
    match outcome {
        Ok(v) => Some(v),
        Err(_) => None,
    }
}

/// The snapshots among a sequence of probe outcomes, in their own order.
pub open spec fn ok_values<T, E>(s: Seq<Result<T, E>>) -> Seq<T>
    decreases s.len(),
{
    if s.len() == 0 {
        Seq::empty()
    } else {
        match s[0] {
            Ok(v) => seq![v] + ok_values(s.skip(1)),
            Err(_) => ok_values(s.skip(1)),
        }
    }
}

/// What a stream emits over any run of probe cycles: exactly the ordered
/// subsequence of the successful outcomes' snapshots — no error, and nothing
/// for a failed cycle.
pub fn collect_samples<T, E>(outcomes: Vec<Result<T, E>>) -> (r: Vec<T>)
    ensures
        r@ == ok_values(outcomes@),
{
    let ghost orig = outcomes@;
    let mut rest = outcomes;
    let mut out: Vec<T> = Vec::new();
    proof {
        assert(out@ + ok_values(rest@) =~= ok_values(orig));
    }
    while rest.len() > 0
        invariant
            ok_values(orig) == out@ + ok_values(rest@),
        decreases rest.len(),
    {
        let ghost before = rest@;
        let o = rest.remove(0);
        proof {
            assert(rest@ =~= before.skip(1));
        }
        match o {
            Ok(v) => {
                let ghost prev = out@;
                out.push(v);
                proof {
                    assert(prev + (seq![v] + ok_values(before.skip(1))) =~= out@ + ok_values(
                        before.skip(1),
                    ));
                }
            },
            Err(_) => {},
        }
    }
    proof {
        assert(ok_values(rest@) =~= Seq::<T>::empty());
        assert(out@ + Seq::<T>::empty() =~= out@);
    }
    out
}

/// One more cycle at the end of a run changes the emissions by its own
/// verdict alone: a success appends its snapshot, a failure appends nothing.
pub proof fn lemma_ok_values_push<T, E>(s: Seq<Result<T, E>>, x: Result<T, E>)
    ensures
        ok_values(s.push(x)) == (match x {
            Ok(v) => ok_values(s).push(v),
            Err(_) => ok_values(s),
        }),
    decreases s.len(),
{
    if s.len() == 0 {
        assert(s.push(x)[0] == x);
        assert(s.push(x).skip(1) =~= Seq::<Result<T, E>>::empty());
        assert(ok_values(s.push(x).skip(1)) =~= Seq::<T>::empty());
        match x {
            Ok(v) => {
                assert(ok_values(s.push(x)) == seq![v] + ok_values(s.push(x).skip(1)));
                assert(seq![v] + Seq::<T>::empty() =~= ok_values(s).push(v));
            },
            Err(_) => {},
        }
    } else {
        assert(s.push(x)[0] == s[0]);
        assert(s.push(x).skip(1) =~= s.skip(1).push(x));
        lemma_ok_values_push(s.skip(1), x);
        match (s[0], x) {
            (Ok(h), Ok(v)) => {
                assert(seq![h] + ok_values(s.skip(1)).push(v) =~= (seq![h] + ok_values(
                    s.skip(1),
                )).push(v));
            },
            _ => {},
        }
    }
}

/// A stream surfaces no error and drops no success: the emitted sequence is
/// exactly the successful outcomes, kept in order, each stripped to its
/// snapshot.
pub proof fn lemma_stream_emits_successes_only<T, E>(s: Seq<Result<T, E>>)
    ensures
        ok_values(s) == s.filter(|r: Result<T, E>| r is Ok).map_values(
            |r: Result<T, E>| r->Ok_0,
        ),
    decreases s.len(),
{
    reveal(Seq::filter);
    let is_ok = |r: Result<T, E>| r is Ok;
    let value = |r: Result<T, E>| r->Ok_0;
    if s.len() == 0 {
        assert(ok_values(s) =~= s.filter(is_ok).map_values(value));
    } else {
        let d = s.drop_last();
        lemma_stream_emits_successes_only(d);
        lemma_ok_values_push(d, s.last());
        assert(d.push(s.last()) =~= s);
        match s.last() {
            Ok(v) => {
                assert(s.filter(is_ok) == d.filter(is_ok).push(s.last()));
                assert(s.filter(is_ok).map_values(value) =~= d.filter(is_ok).map_values(
                    value,
                ).push(v));
            },
            Err(_) => {
                assert(s.filter(is_ok) == d.filter(is_ok));
            },
        }
    }
}

} // verus!
