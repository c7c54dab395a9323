use vstd::prelude::*;

verus! {

/// Why a set of run parameters was refused.
#[derive(Debug, Clone, Copy, PartialEq, Eq, Structural)]
pub enum ConfigError {
    /// The thread count is zero.
    NoThreads,
    /// There are more threads than elements, so some chunk would be empty.
    TooManyThreads,
}

/// The parameters of one benchmark run.
#[derive(Debug, Clone, Copy, PartialEq, Eq, Structural)]
pub struct Config {
    /// Number of `u64` elements in each buffer.
    pub element_count: usize,
    /// How many times every worker copies its chunk.
    pub iterations: usize,
    /// Number of workers, and of chunks each buffer is cut into.
    pub threads: usize,
}

/// Number of bytes in one buffer element.
pub open spec fn element_bytes() -> nat {
    8
}

impl Config {
    /// A well-formed configuration can partition its buffers.
    pub open spec fn wf(&self) -> bool {
        1 <= self.threads <= self.element_count
    }

    /// Checks the parameters: at least one thread, and no more threads than elements.
    pub fn new(element_count: usize, iterations: usize, threads: usize) -> (r: Result<
        Config,
        ConfigError,
    >)
        ensures
            threads == 0 ==> r == Err::<Config, ConfigError>(ConfigError::NoThreads),
            threads > element_count && threads != 0 ==> r == Err::<Config, ConfigError>(
                ConfigError::TooManyThreads,
            ),
            1 <= threads <= element_count ==> r == Ok::<Config, ConfigError>(
                (Config { element_count, iterations, threads }),
            ),
            r matches Ok(c) ==> c.wf(),
    {
        if threads == 0 {
            Err(ConfigError::NoThreads)
        } else if threads > element_count {
            Err(ConfigError::TooManyThreads)
        } else {
            Ok(Config { element_count, iterations, threads })
        }
    }

    /// Size of one buffer in bytes, or `None` where it does not fit in `usize`.
    pub fn array_bytes(&self) -> (r: Option<usize>)
        ensures
            r == (if self.element_count * element_bytes() <= usize::MAX {
                Some((self.element_count * element_bytes()) as usize)
            } else {
                None::<usize>
            }),
    {
        broadcast use vstd::layout::layout_of_primitives;

        core::mem::size_of::<u64>().checked_mul(self.element_count)
    }

    /// Bytes moved by the whole run: one full buffer per iteration, whatever the
    /// thread count, or `None` where the buffer size or that total does not fit
    /// in `usize`.
    pub fn bytes_moved(&self) -> (r: Option<usize>)
        ensures
            r == (if self.element_count * element_bytes() <= usize::MAX
                && self.element_count * element_bytes() * self.iterations <= usize::MAX {
                Some((self.element_count * element_bytes() * self.iterations) as usize)
            } else {
                None::<usize>
            }),
            r matches Some(b) ==> (b > 0 <==> self.element_count > 0 && self.iterations > 0),
    {
        let r = match self.array_bytes() {
            Some(bytes) => bytes.checked_mul(self.iterations),
            None => None,
        };
        proof {
            let a = self.element_count * element_bytes();
            let k = self.iterations as int;
            assert(a * k > 0 <==> a > 0 && k > 0) by (nonlinear_arith)
                requires
                    a >= 0,
                    k >= 0,
            ;
        }
        r
    }
}

} // verus!
