//! A resumable batch translator for line-oriented text corpora: extract
//! lines by regular expressions, group them into token-bounded batches,
//! record translator responses against the extracted lines, and splice the
//! translations back into a byte-accurate copy of the original file,
//! recording the ranges of mis-shaped responses for the next run.
//!
//! The shell around this library performs the file, network and clock work;
//! everything the job decides and computes is here.

use vstd::prelude::*;

pub mod chatgpt;
pub mod diag;
pub mod input;
pub mod output;
pub mod re;
pub mod rewrite;
pub mod strutil;
pub mod textures;
pub mod tok;
pub mod translator;
pub mod utils;

use crate::chatgpt::ChatGPTOptions;
use crate::input::TransType;
use crate::utils::now_millis;

verus! {

/// How one entry of `output_regexen` is used: as a whole-text replacement,
/// or to capture a numbered group.
#[derive(Debug)]
pub enum RegexUsage {
    Replace(String),
    Capture(usize),
}

/// One configured output regex with its usage.
#[derive(Debug)]
pub struct RegexDescription {
    pub usage: RegexUsage,
    pub regex: String,
}

/// Options of the map output family.
#[derive(Debug, PartialEq, Eq, Structural)]
pub struct MToolOptions {
    pub line_width: Option<usize>,
}

/// Options of the token-bounded batcher.
#[derive(Debug)]
pub struct BatchizerOptions {
    pub max_tokens: usize,
}

/// The command line: an optional input file overriding the configured one,
/// the configuration path, and whether to skip translation and only
/// rewrite the output from an existing sidecar.
#[derive(Debug)]
pub struct Arguments {
    pub file: Option<String>,
    pub config: String,
    pub output_only: bool,
}

/// One translation job's configuration.  The language fields hold the
/// resolved language names; the shell maps ISO 639 codes to them.
#[derive(Debug)]
pub struct Configuration {
    pub file: Option<String>,
    pub lang_from: String,
    pub lang_to: String,
    pub trans_type: TransType,
    pub filter_regexen: Vec<String>,
    pub capture_regex: Option<String>,
    pub replace_expression: Option<String>,
    pub output_regexen: Vec<RegexDescription>,
    pub chatgpt_opt: Option<ChatGPTOptions>,
    pub specify_range: Option<Vec<(usize, usize)>>,
    pub batchizer_opt: BatchizerOptions,
    pub mtool_opt: Option<MToolOptions>,
}

/// A periodic timer over the millisecond clock; drives the supervisor's
/// checkpoint cadence.
#[derive(Debug)]
pub struct Timer {
    pub start: u64,
    pub interval: u64,
}

/// Whether a timer started at `start` with period `interval` has fired by
/// the reading `now`: the elapsed time (zero if the clock moved backward)
/// has reached the interval.
pub open spec fn spec_timer_fired(start: u64, interval: u64, now: u64) -> bool {
    (if now >= start {
        (now - start) as u64
    } else {
        0
    }) >= interval
}

/// The checkpoint-cadence decision for one clock reading.
pub fn timer_step(start: u64, interval: u64, now: u64) -> (r: bool)
    ensures
        r == spec_timer_fired(start, interval, now),
{
    let elapsed: u64 = if now >= start {
        now - start
    } else {
        0
    };
    elapsed >= interval
}

impl Timer {
    pub fn new(interval: u64) -> (r: Self)
        ensures
            r.interval == interval,
    {
        Self { start: now_millis(), interval }
    }

    /// Whether the interval has elapsed since the last reset, judged by
    /// `timer_step` on one clock reading; when it has, the timer restarts
    /// from that reading.  The reading itself is not modelled, but the
    /// decision taken on it is exact: some reading decided the result, and
    /// a firing restarts the timer at that reading.
    pub fn finished(&mut self) -> (r: bool)
        ensures
            final(self).interval == old(self).interval,
            !r ==> final(self).start == old(self).start,
            exists|now: u64|
                r == spec_timer_fired(old(self).start, old(self).interval, now) && (r
                    ==> final(self).start == now),
    {
        let now = now_millis();
        let fired = timer_step(self.start, self.interval, now);
        if fired {
            self.start = now;
        }
        proof {
            assert(fired == spec_timer_fired(old(self).start, old(self).interval, now) && (fired
                ==> self.start == now));
        }
        fired
    }
}

} // verus!
