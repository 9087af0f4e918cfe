use crate::compose::{canvas_height, canvas_width, views};
use crate::error::{JobError, LoadError};
use crate::raster::{Raster, RasterView};
use vstd::prelude::*;

verus! {

/// The outcome of loading the entry at position `index` of a job.
pub struct Arrival {
    pub index: usize,
    pub result: Result<Raster, LoadError>,
}

/// The arrivals carry each position `0..n` exactly once, in any order.
pub open spec fn covers(arr: Seq<Arrival>, n: nat) -> bool {
    &&& arr.len() == n
    &&& forall|k: int| 0 <= k < arr.len() ==> (#[trigger] arr[k]).index < n
    &&& forall|j: int, k: int|
        0 <= j < arr.len() && 0 <= k < arr.len() && j != k ==> (#[trigger] arr[j]).index
            != (#[trigger] arr[k]).index
    &&& forall|i: int| 0 <= i < n ==> #[trigger] carries(arr, i)
}

/// Some arrival carries position `i`.
pub open spec fn carries(arr: Seq<Arrival>, i: int) -> bool {
    exists|k: int| 0 <= k < arr.len() && (#[trigger] arr[k]).index == i
}

pub open spec fn all_loaded(arr: Seq<Arrival>) -> bool {
    forall|k: int| 0 <= k < arr.len() ==> (#[trigger] arr[k]).result is Ok
}

/// Every raster that arrived is well formed.
pub open spec fn loaded_wf(arr: Seq<Arrival>) -> bool {
    forall|k: int| 0 <= k < arr.len() ==> ((#[trigger] arr[k]).result matches Ok(r) ==> r.wf())
}

/// The arrival that carries position `i`.
pub open spec fn slot(arr: Seq<Arrival>, i: int) -> Arrival {
    arr[choose|k: int| 0 <= k < arr.len() && arr[k].index == i]
}

/// The loaded rasters by position.
pub open spec fn ordered(arr: Seq<Arrival>, n: nat) -> Seq<RasterView> {
    Seq::new(n, |i: int| slot(arr, i).result->Ok_0@)
}

/// `k` is the first arrival, in the order of arrival, that failed.
pub open spec fn first_failure(arr: Seq<Arrival>, k: int) -> bool {
    &&& 0 <= k < arr.len()
    &&& arr[k].result is Err
    &&& forall|j: int| 0 <= j < k ==> (#[trigger] arr[j]).result is Ok
}

proof fn lemma_slot(arr: Seq<Arrival>, n: nat, k: int)
    requires
        covers(arr, n),
        0 <= k < arr.len(),
    ensures
        slot(arr, arr[k].index as int) == arr[k],
{
    let i = arr[k].index as int;
    let c = choose|c: int| 0 <= c < arr.len() && arr[c].index == i;
    assert(0 <= c < arr.len() && arr[c].index == i);
    if c != k {
        assert(arr[c].index != arr[k].index);
    }
}

/// Puts the loaded rasters back into the job's order, whatever order they
/// arrived in. Fails with the first failure in the order of arrival, naming
/// the position of the entry that failed.
pub fn gather(n: usize, arrivals: Vec<Arrival>) -> (r: Result<Vec<Raster>, JobError>)
    requires
        covers(arrivals@, n as nat),
        loaded_wf(arrivals@),
    ensures
        r is Ok <==> all_loaded(arrivals@),
        r matches Ok(v) ==> views(v@) == ordered(arrivals@, n as nat) && forall|i: int|
            0 <= i < v@.len() ==> (#[trigger] v@[i]).wf(),
        r matches Err(e) ==> exists|k: int|
            first_failure(arrivals@, k) && e == (JobError::Load {
                index: arrivals@[k].index,
                error: arrivals@[k].result->Err_0,
            }),
{
    let mut k: usize = 0;
    while k < arrivals.len()
        invariant
            k <= arrivals@.len(),
            forall|j: int| 0 <= j < k ==> (#[trigger] arrivals@[j]).result is Ok,
        decreases arrivals@.len() - k,
    {
        match &arrivals[k].result {
            Ok(_) => {},
            Err(e) => {
                let err = JobError::Load { index: arrivals[k].index, error: *e };
                assert(first_failure(arrivals@, k as int));
                return Err(err);
            },
        }
        k = k + 1;
    }
    let ghost arr = arrivals@;
    let mut slots: Vec<Raster> = Vec::new();
    let mut i: usize = 0;
    while i < n
        invariant
            i <= n,
            slots@.len() == i,
            forall|j: int| 0 <= j < i ==> (#[trigger] slots@[j]).wf(),
        decreases n - i,
    {
        let blank = Raster { width: 0, height: 0, rows: Vec::new() };
        assert(blank@.rows =~= Seq::<Seq<u8>>::empty());
        slots.push(blank);
        i = i + 1;
    }
    let mut rest = arrivals;
    while rest.len() > 0
        invariant
            covers(arr, n as nat),
            all_loaded(arr),
            loaded_wf(arr),
            rest@.len() <= arr.len(),
            rest@ == arr.take(rest@.len() as int),
            slots@.len() == n,
            forall|j: int| 0 <= j < n ==> (#[trigger] slots@[j]).wf(),
            forall|k: int|
                rest@.len() <= k < arr.len() ==> slots@[(#[trigger] arr[k]).index as int]@
                    == arr[k].result->Ok_0@,
        decreases rest@.len(),
    {
        let ghost prior = rest@;
        let a = rest.pop().unwrap();
        let ghost last = rest@.len() as int;
        assert(prior[last] == arr[last]);
        assert(arr[last] == a);
        assert(rest@ =~= arr.take(last));
        match a.result {
            Ok(img) => {
                slots.set(a.index, img);
                assert forall|k: int| rest@.len() <= k < arr.len() implies slots@[(
                #[trigger] arr[k]).index as int]@ == arr[k].result->Ok_0@ by {
                    if k != last {
                        assert(arr[k].index != arr[last].index);
                    }
                }
            },
            Err(_) => {},
        }
    }
    proof {
        assert forall|i: int| 0 <= i < n implies views(slots@)[i] == ordered(arr, n as nat)[i] by {
            assert(carries(arr, i));
            let k = choose|k: int| 0 <= k < arr.len() && arr[k].index == i;
            lemma_slot(arr, n as nat, k);
        }
        assert(views(slots@) =~= ordered(arr, n as nat));
    }
    Ok(slots)
}

/// Loading the same entries gives the same canvas size, whatever order the
/// loads finished in: when two runs over `n` entries bring, for each position,
/// rasters of the same content, they order them into the same sequence, and
/// the canvas is as high as the sum of their heights and as wide as the
/// widest of them, in both.
pub proof fn lemma_gather_order_independent(a: Seq<Arrival>, b: Seq<Arrival>, n: nat)
    requires
        covers(a, n),
        covers(b, n),
        all_loaded(a),
        all_loaded(b),
        forall|j: int, k: int|
            0 <= j < a.len() && 0 <= k < b.len() && (#[trigger] a[j]).index == (#[trigger] b[k]).index
                ==> a[j].result->Ok_0@ == b[k].result->Ok_0@,
    ensures
        ordered(a, n) == ordered(b, n),
        canvas_height(ordered(a, n)) == canvas_height(ordered(b, n)),
        canvas_width(ordered(a, n)) == canvas_width(ordered(b, n)),
{
    assert forall|i: int| 0 <= i < n implies ordered(a, n)[i] == ordered(b, n)[i] by {
        assert(carries(a, i) && carries(b, i));
        let j = choose|j: int| 0 <= j < a.len() && a[j].index == i;
        let k = choose|k: int| 0 <= k < b.len() && b[k].index == i;
        lemma_slot(a, n, j);
        lemma_slot(b, n, k);
    }
    assert(ordered(a, n) =~= ordered(b, n));
}

} // verus!
