//! Timings of the steps of a benchmark run against the gateway.
use vstd::prelude::*;

verus! {

/// One timed step: its name, how long it took and how many requests it made.
#[derive(Debug)]
pub struct StepTiming {
    pub name: String,
    pub duration_nanos: u64,
    pub request_count: usize,
}

/// The timings of a benchmark run, in the order the steps ran.
#[derive(Debug)]
pub struct BenchResult {
    pub timings: Vec<StepTiming>,
}

/// Total time of the first `n` steps, in nanoseconds.
pub open spec fn total_nanos(t: Seq<StepTiming>, n: nat) -> int
    decreases n,
{
    if n == 0 || n > t.len() {
        0
    } else {
        total_nanos(t, (n - 1) as nat) + t[n - 1].duration_nanos
    }
}

/// Total requests of the first `n` steps.
pub open spec fn total_requests(t: Seq<StepTiming>, n: nat) -> int
    decreases n,
{
    if n == 0 || n > t.len() {
        0
    } else {
        total_requests(t, (n - 1) as nat) + t[n - 1].request_count
    }
}

impl BenchResult {
    /// A run with no step timed yet.
    pub fn new() -> (r: BenchResult)
        ensures
            r.timings@.len() == 0,
    {
        BenchResult { timings: Vec::new() }
    }

    /// Records a finished step.
    pub fn record(&mut self, name: &str, duration_nanos: u64, request_count: usize)
        ensures
            final(self).timings@.len() == old(self).timings@.len() + 1,
            final(self).timings@.drop_last() == old(self).timings@,
            final(self).timings@.last().name@ == name@,
            final(self).timings@.last().duration_nanos == duration_nanos,
            final(self).timings@.last().request_count == request_count,
    {
        self.timings.push(StepTiming { name: name.to_owned(), duration_nanos, request_count });
        assert(self.timings@.drop_last() =~= old(self).timings@);
    }

    /// The total time (nanoseconds) and the total number of requests.
    pub fn totals(&self) -> (r: (u128, u128))
        ensures
            r.0 == total_nanos(self.timings@, self.timings@.len()),
            r.1 == total_requests(self.timings@, self.timings@.len()),
    {
        let mut time: u128 = 0;
        let mut requests: u128 = 0;
        let mut i: usize = 0;
        while i < self.timings.len()
            invariant
                i <= self.timings@.len(),
                time == total_nanos(self.timings@, i as nat),
                requests == total_requests(self.timings@, i as nat),
                time <= i * 0xFFFF_FFFF_FFFF_FFFF,
                requests <= i * 0xFFFF_FFFF_FFFF_FFFF,
            decreases self.timings@.len() - i,
        {
            assert(i * 0xFFFF_FFFF_FFFF_FFFF + 0xFFFF_FFFF_FFFF_FFFF <= 0xFFFF_FFFF_FFFF_FFFF * 0xFFFF_FFFF_FFFF_FFFF + 0xFFFF_FFFF_FFFF_FFFF)
                by (nonlinear_arith)
                requires
                    i < 0xFFFF_FFFF_FFFF_FFFF,
            ;
            time = time + self.timings[i].duration_nanos as u128;
            requests = requests + self.timings[i].request_count as u128;
            i = i + 1;
        }
        (time, requests)
    }
}

} // verus!
