//! Live progress reporting for one verification run: an overall counter
//! capped at the total known up front, and one status slot per worker,
//! rendered through terminal progress bars.

use vstd::prelude::*;

verus! {

/// Terminal rendering relies on indicatif's bar collection.
#[verifier::external_type_specification]
#[verifier::external_body]
pub struct ExMultiProgress(indicatif::MultiProgress);

/// Terminal rendering relies on indicatif's progress bars.
#[verifier::external_type_specification]
#[verifier::external_body]
pub struct ExProgressBar(indicatif::ProgressBar);

/// Relies on indicatif::MultiProgress::new: a fresh bar collection.
#[verifier::external_body]
fn new_multi_progress() -> indicatif::MultiProgress {
    indicatif::MultiProgress::new()
}

/// Relies on indicatif to build and register the overall bar, with the
/// given length and prefix label; rendering only, no result to state.
#[verifier::external_body]
fn add_overall_bar(
    multi: &indicatif::MultiProgress,
    total: u64,
    label: &str,
) -> indicatif::ProgressBar {
    let bar = multi.add(indicatif::ProgressBar::new(total));
    if let Ok(style) = indicatif::ProgressStyle::with_template(
        "{prefix} {bar:40.cyan/blue} {pos}/{len} ({eta})",
    ) {
        bar.set_style(style.progress_chars("=>-"));
    }
    bar.set_prefix(label.to_string());
    bar.enable_steady_tick(core::time::Duration::from_millis(100));
    bar
}

/// Relies on indicatif to build and register one worker's spinner, with
/// the worker index as its prefix; rendering only, no result to state.
#[verifier::external_body]
fn add_worker_bar(multi: &indicatif::MultiProgress, idx: usize) -> indicatif::ProgressBar {
    let bar = multi.add(indicatif::ProgressBar::new_spinner());
    if let Ok(style) = indicatif::ProgressStyle::with_template("Thread {prefix}: {msg}") {
        bar.set_style(style);
    }
    bar.set_prefix(idx.to_string());
    bar.set_message("idle");
    bar.enable_steady_tick(core::time::Duration::from_millis(100));
    bar
}

/// Relies on indicatif::ProgressBar::inc; rendering only.
#[verifier::external_body]
fn bar_inc(bar: &indicatif::ProgressBar) {
    bar.inc(1);
}

/// Relies on indicatif::ProgressBar::set_message; rendering only.
#[verifier::external_body]
fn bar_set_message(bar: &indicatif::ProgressBar, message: String) {
    bar.set_message(message);
}

/// Relies on indicatif::ProgressBar::finish_and_clear; rendering only.
#[verifier::external_body]
fn bar_finish_and_clear(bar: &indicatif::ProgressBar) {
    bar.finish_and_clear();
}

/// Relies on indicatif::MultiProgress::clear; rendering only.
#[verifier::external_body]
fn multi_clear(multi: &indicatif::MultiProgress) {
    let _ = multi.clear();
}

/// Progress state for one verification run, bounded to that run: an
/// overall counter from 0 up to the total, and one text slot per worker.
/// The terminal bars mirror the counter and the slots.
pub struct ProgressReporter {
    multi: indicatif::MultiProgress,
    overall: indicatif::ProgressBar,
    workers: Vec<indicatif::ProgressBar>,
    slots: Vec<String>,
    completed: usize,
    total: usize,
}

/// Mathematical image of a [`ProgressReporter`]: the counter, its cap,
/// and the worker slots' text.
pub ghost struct ProgressView {
    pub total: nat,
    pub completed: nat,
    pub slots: Seq<Seq<char>>,
}

impl View for ProgressReporter {
    type V = ProgressView;

    closed spec fn view(&self) -> ProgressView {
        ProgressView {
            total: self.total as nat,
            completed: self.completed as nat,
            slots: self.slots@.map_values(|s: String| s@),
        }
    }
}

impl ProgressReporter {
    /// A fresh reporter for a run over `total` items, with one slot per
    /// worker, every slot idle and the counter at zero.
    pub fn new(total: usize, worker_count: usize, label: &str) -> (r: ProgressReporter)
        ensures
            r@.total == total,
            r@.completed == 0,
            r@.slots.len() == worker_count,
            forall|i: int| 0 <= i < worker_count ==> r@.slots[i] == "idle"@,
    {
        let multi = new_multi_progress();
        let overall = add_overall_bar(&multi, total as u64, label);
        let mut workers: Vec<indicatif::ProgressBar> = Vec::new();
        let mut slots: Vec<String> = Vec::new();
        let mut idx: usize = 0;
        while idx < worker_count
            invariant
                idx <= worker_count,
                slots@.len() == idx,
                forall|i: int| 0 <= i < idx ==> (#[trigger] slots@[i])@ == "idle"@,
            decreases worker_count - idx,
        {
            workers.push(add_worker_bar(&multi, idx));
            slots.push("idle".to_owned());
            idx += 1;
        }
        let r = ProgressReporter { multi, overall, workers, slots, completed: 0, total };
        proof {
            assert forall|i: int| 0 <= i < worker_count implies r@.slots[i] == "idle"@ by {
                assert(r@.slots[i] == (r.slots@[i])@);
            }
        }
        r
    }

    /// Advances the overall counter by one completed item; the counter
    /// never exceeds the total.
    pub fn inc(&mut self)
        ensures
            final(self)@.completed == if old(self)@.completed < old(self)@.total {
                old(self)@.completed + 1
            } else {
                old(self)@.completed
            },
            final(self)@.total == old(self)@.total,
            final(self)@.slots == old(self)@.slots,
    {
        if self.completed < self.total {
            self.completed = self.completed + 1;
            bar_inc(&self.overall);
        }
    }

    /// Overwrites one worker's status slot; an out-of-range index is
    /// ignored rather than an error.
    pub fn worker_start(&mut self, idx: usize, message: String)
        ensures
            final(self)@.slots == if idx < old(self)@.slots.len() {
                old(self)@.slots.update(idx as int, message@)
            } else {
                old(self)@.slots
            },
            final(self)@.completed == old(self)@.completed,
            final(self)@.total == old(self)@.total,
    {
        if idx < self.slots.len() {
            if idx < self.workers.len() {
                bar_set_message(&self.workers[idx], message.clone());
            }
            self.slots.set(idx, message);
            proof {
                assert(self@.slots =~= old(self)@.slots.update(idx as int, self.slots@[
                    idx as int]@));
            }
        }
    }

    /// Resets one worker's status slot to idle.
    pub fn worker_finish(&mut self, idx: usize)
        ensures
            final(self)@.slots == if idx < old(self)@.slots.len() {
                old(self)@.slots.update(idx as int, "idle"@)
            } else {
                old(self)@.slots
            },
            final(self)@.completed == old(self)@.completed,
            final(self)@.total == old(self)@.total,
    {
        self.worker_start(idx, "idle".to_owned());
    }

    /// How many items have completed so far.
    pub fn completed(&self) -> (r: usize)
        ensures
            r == self@.completed,
    {
        self.completed
    }

    /// The total this run was created for.
    pub fn total(&self) -> (r: usize)
        ensures
            r == self@.total,
    {
        self.total
    }

    /// Ends live rendering and releases the display; called once, after
    /// all workers are done.
    pub fn finish(self) {
        bar_finish_and_clear(&self.overall);
        let mut idx: usize = 0;
        while idx < self.workers.len()
            decreases self.workers.len() - idx,
        {
            bar_finish_and_clear(&self.workers[idx]);
            idx += 1;
        }
        multi_clear(&self.multi);
    }
}

} // verus!
