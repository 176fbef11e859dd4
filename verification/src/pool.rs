//! Worker-pool accounting: the bookkeeping of a fixed-size, self-healing
//! pool of workers.
//!
//! The pool's observable state is four counters — jobs queued, jobs being
//! run, the configured number of workers, and workers lost to panics — plus
//! the workers' name and stack size.  Every transition a running pool makes
//! is a method here with an exact contract: queueing a job, a worker picking
//! one up, finishing it or panicking on it, growing or shrinking the pool,
//! and the idleness test that lets a joining thread return.  The threads,
//! channels and condition variables that drive these transitions live
//! outside the library; they hand events in and read the decisions back.

use vstd::prelude::*;

verus! {

/// Builds a pool: number of workers, their name, and their stack size, each
/// optional.
#[derive(Clone, Debug, Default)]
pub struct Builder {
    pub num_threads: Option<usize>,
    pub thread_name: Option<String>,
    pub thread_stack_size: Option<usize>,
}

/// The accounting state of one worker pool.
#[derive(Clone, Debug)]
pub struct ThreadPool {
    pub name: Option<String>,
    pub queued: usize,
    pub active: usize,
    pub max_threads: usize,
    pub panics: usize,
    pub stack_size: Option<usize>,
}

/// The number of workers the machine suggests.
///
/// Relies on `num_cpus::get`: the number of logical CPUs, which its
/// documentation promises to be at least one.
#[verifier::external_body]
fn cpu_count() -> (n: usize)
    ensures
        n >= 1,
{
    num_cpus::get()
}

impl Builder {
    /// An empty builder: every parameter left to its default.
    pub fn new() -> (b: Builder)
        ensures
            b.num_threads is None,
            b.thread_name is None,
            b.thread_stack_size is None,
    {
        Builder { num_threads: None, thread_name: None, thread_stack_size: None }
    }

    /// Sets the number of workers; it must be positive.
    pub fn num_threads(self, num_threads: usize) -> (b: Builder)
        requires
            num_threads > 0,
        ensures
            b.num_threads == Some(num_threads),
            b.thread_name == self.thread_name,
            b.thread_stack_size == self.thread_stack_size,
    {
        Builder {
            num_threads: Some(num_threads),
            thread_name: self.thread_name,
            thread_stack_size: self.thread_stack_size,
        }
    }

    /// Sets the name the workers carry.
    pub fn thread_name(self, name: String) -> (b: Builder)
        ensures
            b.num_threads == self.num_threads,
            b.thread_name matches Some(n) && n@ == name@,
            b.thread_stack_size == self.thread_stack_size,
    {
        Builder {
            num_threads: self.num_threads,
            thread_name: Some(name),
            thread_stack_size: self.thread_stack_size,
        }
    }

    /// Sets the stack size of each worker.
    pub fn thread_stack_size(self, size: usize) -> (b: Builder)
        ensures
            b.num_threads == self.num_threads,
            b.thread_name == self.thread_name,
            b.thread_stack_size == Some(size),
    {
        Builder {
            num_threads: self.num_threads,
            thread_name: self.thread_name,
            thread_stack_size: Some(size),
        }
    }

    /// Builds the pool state: the configured number of workers, or one per
    /// CPU where none was set, and all counters at zero.
    pub fn build(self) -> (p: ThreadPool)
        requires
            self.num_threads matches Some(n) ==> n > 0,
        ensures
            p.max_threads >= 1,
            self.num_threads matches Some(n) ==> p.max_threads == n,
            p.queued == 0 && p.active == 0 && p.panics == 0,
            p.name == self.thread_name,
            p.stack_size == self.thread_stack_size,
    {
        let max_threads = match self.num_threads {
            Some(n) => n,
            None => cpu_count(),
        };
        ThreadPool {
            name: self.thread_name,
            queued: 0,
            active: 0,
            max_threads,
            panics: 0,
            stack_size: self.thread_stack_size,
        }
    }
}

impl ThreadPool {
    /// A pool of `num_threads` workers; the count must be positive.
    pub fn new(num_threads: usize) -> (p: ThreadPool)
        requires
            num_threads > 0,
        ensures
            p.max_threads == num_threads,
            p.queued == 0 && p.active == 0 && p.panics == 0,
            p.name is None,
    {
        Builder::new().num_threads(num_threads).build()
    }

    /// A pool of `num_threads` workers whose threads carry the given name.
    pub fn with_name(name: String, num_threads: usize) -> (p: ThreadPool)
        requires
            num_threads > 0,
        ensures
            p.max_threads == num_threads,
            p.queued == 0 && p.active == 0 && p.panics == 0,
            p.name matches Some(n) && n@ == name@,
    {
        Builder::new().num_threads(num_threads).thread_name(name).build()
    }

    /// Queues one job: the runtime sends the closure down its channel as
    /// this counter rises.
    pub fn execute(&mut self)
        requires
            old(self).queued < usize::MAX,
        ensures
            final (self).queued == old(self).queued + 1,
            final (self).active == old(self).active,
            final (self).max_threads == old(self).max_threads,
            final (self).panics == old(self).panics,
            final (self).name == old(self).name,
            final (self).stack_size == old(self).stack_size,
    {
        self.queued = self.queued + 1;
    }

    /// The number of jobs queued and not yet picked up.
    pub fn queued_count(&self) -> (n: usize)
        ensures
            n == self.queued,
    {
        self.queued
    }

    /// The number of jobs being run right now.
    pub fn active_count(&self) -> (n: usize)
        ensures
            n == self.active,
    {
        self.active
    }

    /// The configured number of workers.
    pub fn max_count(&self) -> (n: usize)
        ensures
            n == self.max_threads,
    {
        self.max_threads
    }

    /// The number of workers lost to a panicking job.
    pub fn panic_count(&self) -> (n: usize)
        ensures
            n == self.panics,
    {
        self.panics
    }

    /// Whether a job is queued or being run.
    pub fn has_work(&self) -> (r: bool)
        ensures
            r == (self.queued > 0 || self.active > 0),
    {
        self.queued > 0 || self.active > 0
    }

    /// Whether a joining thread may return: nothing queued, nothing running.
    /// The runtime re-evaluates this each time the pool's idle signal fires.
    pub fn join(&self) -> (done: bool)
        ensures
            done == !(self.queued > 0 || self.active > 0),
    {
        !self.has_work()
    }

    /// Whether a worker that reaches the top of its loop must exit because
    /// the pool has been shrunk below the number of busy workers.
    pub fn worker_should_exit(&self) -> (r: bool)
        ensures
            r == (self.active >= self.max_threads),
    {
        self.active >= self.max_threads
    }

    /// A worker picked a queued job up and starts running it.
    pub fn worker_take_job(&mut self)
        requires
            old(self).queued > 0,
            old(self).active < usize::MAX,
        ensures
            final (self).queued == old(self).queued - 1,
            final (self).active == old(self).active + 1,
            final (self).max_threads == old(self).max_threads,
            final (self).panics == old(self).panics,
            final (self).name == old(self).name,
            final (self).stack_size == old(self).stack_size,
    {
        self.queued = self.queued - 1;
        self.active = self.active + 1;
    }

    /// A worker finished its job without incident.
    pub fn worker_finish_job(&mut self)
        requires
            old(self).active > 0,
        ensures
            final (self).active == old(self).active - 1,
            final (self).queued == old(self).queued,
            final (self).max_threads == old(self).max_threads,
            final (self).panics == old(self).panics,
            final (self).name == old(self).name,
            final (self).stack_size == old(self).stack_size,
    {
        self.active = self.active - 1;
    }

    /// A worker's job panicked: the worker is written off and the runtime
    /// spawns a replacement, which keeps the pool at its configured size.
    pub fn worker_panicked(&mut self)
        requires
            old(self).active > 0,
            old(self).panics < usize::MAX,
        ensures
            final (self).active == old(self).active - 1,
            final (self).panics == old(self).panics + 1,
            final (self).queued == old(self).queued,
            final (self).max_threads == old(self).max_threads,
            final (self).name == old(self).name,
            final (self).stack_size == old(self).stack_size,
    {
        self.active = self.active - 1;
        self.panics = self.panics + 1;
    }

    /// Resizes the pool and returns how many new workers the runtime must
    /// spawn: the growth, or none where the pool shrank — busy surplus
    /// workers exit on their own at the top of their loop.
    pub fn set_num_threads(&mut self, num_threads: usize) -> (num_spawn: usize)
        requires
            num_threads >= 1,
        ensures
            final (self).max_threads == num_threads,
            final (self).queued == old(self).queued,
            final (self).active == old(self).active,
            final (self).panics == old(self).panics,
            final (self).name == old(self).name,
            final (self).stack_size == old(self).stack_size,
            num_spawn == (if num_threads > old(self).max_threads {
                num_threads - old(self).max_threads
            } else {
                0int
            }),
    {
        let prev = self.max_threads;
        self.max_threads = num_threads;
        if num_threads > prev {
            num_threads - prev
        } else {
            0
        }
    }
}

impl Default for ThreadPool {
    /// A pool with one worker per CPU.
    fn default() -> (p: ThreadPool)
        ensures
            p.max_threads >= 1,
            p.queued == 0 && p.active == 0 && p.panics == 0,
            p.name is None,
    {
        Builder::new().build()
    }
}

} // verus!
