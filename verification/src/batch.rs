//! Batch accounting: derive per-item paths and request URLs, collect
//! per-item outcomes, and build the success log and the run summary.

use vstd::prelude::*;
use crate::resolve::{SLASH, copy_bytes, sub_vec, views_of};

verus! {

/// ASCII line feed: ends each line of the success log.
pub const NEWLINE: u8 = 10;

/// What one URI's download came to: the failure marker keeps the URI, a
/// success also keeps the byte count written.
pub enum DownloadOutcome {
    Success { uri: Vec<u8>, bytes: usize },
    Failure { uri: Vec<u8> },
}

/// The URIs of the successful outcomes, in the order the outcomes were
/// observed.
pub open spec fn succeeded_of(outcomes: Seq<DownloadOutcome>) -> Seq<Seq<u8>>
    decreases outcomes.len(),
{
    if outcomes.len() == 0 {
        Seq::empty()
    } else {
        succeeded_of(outcomes.drop_last()) + (match outcomes.last() {
            DownloadOutcome::Success { uri, bytes } => seq![uri@],
            DownloadOutcome::Failure { uri } => Seq::<Seq<u8>>::empty(),
        })
    }
}

/// Collect the URIs of the successful outcomes, in order of observation.
pub fn succeeded_uris(outcomes: &Vec<DownloadOutcome>) -> (r: Vec<Vec<u8>>)
    ensures
        views_of(r@) == succeeded_of(outcomes@),
{
    let mut r: Vec<Vec<u8>> = Vec::new();
    let mut i: usize = 0;
    proof {
        assert(views_of(r@) =~= succeeded_of(outcomes@.subrange(0, 0)));
    }
    while i < outcomes.len()
        invariant
            i <= outcomes@.len(),
            views_of(r@) == succeeded_of(outcomes@.subrange(0, i as int)),
        decreases outcomes@.len() - i,
    {
        proof {
            assert(outcomes@.subrange(0, (i + 1) as int).drop_last() =~= outcomes@.subrange(
                0,
                i as int,
            ));
            assert(outcomes@.subrange(0, (i + 1) as int).last() == outcomes@[i as int]);
        }
        match &outcomes[i] {
            DownloadOutcome::Success { uri, bytes: _ } => {
                let u = copy_bytes(uri);
                proof {
                    assert(views_of(r@.push(u)) =~= views_of(r@).push(u@));
                    assert(views_of(r@) + seq![u@] =~= views_of(r@).push(u@));
                }
                r.push(u);
            },
            DownloadOutcome::Failure { uri: _ } => {
                proof {
                    assert(views_of(r@) + Seq::<Seq<u8>>::empty() =~= views_of(r@));
                }
            },
        }
        i = i + 1;
    }
    proof {
        assert(outcomes@.subrange(0, outcomes@.len() as int) =~= outcomes@);
    }
    r
}

/// The success log's bytes: each URI in order, each followed by one line
/// feed; empty when nothing succeeded.
pub open spec fn log_lines(uris: Seq<Seq<u8>>) -> Seq<u8>
    decreases uris.len(),
{
    if uris.len() == 0 {
        Seq::empty()
    } else {
        log_lines(uris.drop_last()) + uris.last() + seq![NEWLINE]
    }
}

/// Render the success log: one line per succeeded URI, in order.
pub fn build_log(succeeded: &Vec<Vec<u8>>) -> (r: Vec<u8>)
    ensures
        r@ == log_lines(views_of(succeeded@)),
{
    let ghost views = views_of(succeeded@);
    let mut r: Vec<u8> = Vec::new();
    let mut i: usize = 0;
    proof {
        assert(r@ =~= log_lines(views.subrange(0, 0)));
    }
    while i < succeeded.len()
        invariant
            i <= succeeded@.len(),
            views == views_of(succeeded@),
            views.len() == succeeded@.len(),
            r@ == log_lines(views.subrange(0, i as int)),
        decreases succeeded@.len() - i,
    {
        let ghost r_pre = r@;
        let uri = &succeeded[i];
        let mut t: usize = 0;
        while t < uri.len()
            invariant
                t <= uri@.len(),
                r@ == r_pre + uri@.subrange(0, t as int),
            decreases uri@.len() - t,
        {
            r.push(uri[t]);
            proof {
                assert(r_pre + uri@.subrange(0, (t + 1) as int) =~= (r_pre + uri@.subrange(
                    0,
                    t as int,
                )).push(uri@[t as int]));
            }
            t = t + 1;
        }
        r.push(NEWLINE);
        proof {
            assert(views.subrange(0, (i + 1) as int).drop_last() =~= views.subrange(0, i as int));
            assert(views.subrange(0, (i + 1) as int).last() == succeeded@[i as int]@);
            assert(uri@.subrange(0, uri@.len() as int) =~= uri@);
            assert(r@ =~= log_lines(views.subrange(0, i as int)) + uri@ + seq![NEWLINE]);
        }
        i = i + 1;
    }
    proof {
        assert(views.subrange(0, views.len() as int) =~= views);
    }
    r
}

/// A log is written only when something succeeded; with nothing
/// downloaded the run reports that distinct outcome instead of writing an
/// empty log.
pub fn should_write_log(succeeded: &Vec<Vec<u8>>) -> (r: bool)
    ensures
        r <==> succeeded@.len() > 0,
{
    succeeded.len() > 0
}

/// The aggregate of one run: how many items were asked for, which URIs
/// succeeded (in order of observation), and the elapsed wall time.
pub struct BatchResult {
    pub total: usize,
    pub succeeded: Vec<Vec<u8>>,
    pub elapsed_secs: u64,
}

/// Combine the per-item outcomes of one run into its aggregate result.
pub fn summarize(outcomes: &Vec<DownloadOutcome>, elapsed_secs: u64) -> (r: BatchResult)
    ensures
        r.total == outcomes@.len(),
        views_of(r.succeeded@) == succeeded_of(outcomes@),
        r.elapsed_secs == elapsed_secs,
{
    BatchResult { total: outcomes.len(), succeeded: succeeded_uris(outcomes), elapsed_secs }
}

/// Idempotence of the batch driver's reporting: two runs that observe the
/// same per-item outcomes build the same succeeded list and the same log
/// bytes, so rerunning the driver over unchanged resources rewrites the
/// log rather than growing it.
pub proof fn lemma_batch_log_deterministic(a: Seq<DownloadOutcome>, b: Seq<DownloadOutcome>)
    requires
        a == b,
    ensures
        succeeded_of(a) == succeeded_of(b),
        log_lines(succeeded_of(a)) == log_lines(succeeded_of(b)),
{
}

/// Join the output root and a URI into the item's output path; with no
/// root the URI stands alone.
pub fn join_path(root: &Option<Vec<u8>>, uri: &Vec<u8>) -> (r: Vec<u8>)
    ensures
        root matches Some(d) ==> r@ == d@ + seq![SLASH] + uri@,
        root is None ==> r@ == uri@,
{
    match root {
        Some(d) => {
            let mut r = copy_bytes(d);
            r.push(SLASH);
            let mut u = copy_bytes(uri);
            r.append(&mut u);
            proof {
                assert(r@ =~= d@ + seq![SLASH] + uri@);
            }
            r
        },
        None => copy_bytes(uri),
    }
}

/// Join the base server URL and a URI into the item's request URL.
pub fn request_url(server: &Vec<u8>, uri: &Vec<u8>) -> (r: Vec<u8>)
    ensures
        r@ == server@ + seq![SLASH] + uri@,
{
    let mut r = copy_bytes(server);
    r.push(SLASH);
    let mut u = copy_bytes(uri);
    r.append(&mut u);
    proof {
        assert(r@ =~= server@ + seq![SLASH] + uri@);
    }
    r
}

/// The position of the last path separator in `s`, if any.
pub open spec fn last_slash(s: Seq<u8>) -> Option<int>
    decreases s.len(),
{
    if s.len() == 0 {
        None
    } else if s.last() == SLASH {
        Some(s.len() - 1)
    } else {
        last_slash(s.drop_last())
    }
}

/// The directory part of a path: everything before the last separator.
/// `None` when the path has no separator, so no directory need exist
/// before writing to it.
pub fn parent_dir(path: &Vec<u8>) -> (r: Option<Vec<u8>>)
    ensures
        match r {
            Some(p) => last_slash(path@) matches Some(i) && p@ == path@.subrange(0, i),
            None => last_slash(path@) is None,
        },
{
    let mut k: usize = path.len();
    proof {
        assert(path@.subrange(0, path@.len() as int) =~= path@);
    }
    while k > 0
        invariant
            k <= path@.len(),
            last_slash(path@) == last_slash(path@.subrange(0, k as int)),
        decreases k,
    {
        proof {
            assert(path@.subrange(0, k as int).last() == path@[k - 1]);
            assert(path@.subrange(0, k as int).drop_last() =~= path@.subrange(0, (k - 1) as int));
        }
        if path[k - 1] == SLASH {
            return Some(sub_vec(path, 0, k - 1));
        }
        k = k - 1;
    }
    proof {
        assert(path@.subrange(0, 0) =~= Seq::<u8>::empty());
    }
    None
}

} // verus!
