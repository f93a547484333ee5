//! Write batching for the live collector: rows accumulate until the batch
//! is large enough or old enough to be flushed.
use vstd::prelude::*;

verus! {

#[verifier::external_type_specification]
#[verifier::external_body]
pub struct ExInstant(std::time::Instant);

/// Calls `Instant::now()`. Nothing is claimed of the result: it is the
/// clock's.
#[verifier::external_body]
fn instant_now() -> std::time::Instant {
    std::time::Instant::now()
}

/// Calls `Instant::elapsed` and takes whole milliseconds. Nothing is
/// claimed of the result: it is the clock's.
#[verifier::external_body]
fn elapsed_millis(since: &std::time::Instant) -> u128 {
    since.elapsed().as_millis()
}

/// When a batch is flushed: at `max_rows` rows, or once its first row is
/// `max_age_ms` milliseconds old.
#[derive(Debug, Clone, Copy, PartialEq, Eq)]
pub struct BatchConfig {
    pub max_rows: usize,
    pub max_age_ms: u64,
}

impl BatchConfig {
    /// 50 000 rows or 30 seconds.
    pub fn default() -> (r: BatchConfig)
        ensures
            r.max_rows == 50_000 && r.max_age_ms == 30_000,
    {
        BatchConfig { max_rows: 50_000, max_age_ms: 30_000 }
    }
}

/// Whether a batch of `len` rows whose first row is `elapsed_ms`
/// milliseconds old is due: never when empty; otherwise when it has reached
/// `max_rows` rows or is at least `max_age_ms` milliseconds old.
pub open spec fn flush_due_spec(len: nat, max_rows: nat, elapsed_ms: int, max_age_ms: int) -> bool {
    len > 0 && (len >= max_rows || elapsed_ms >= max_age_ms)
}

/// Whether a batch of `len` rows, `elapsed_ms` milliseconds old, is due
/// (see `flush_due_spec`).
pub fn flush_due_at(len: usize, max_rows: usize, elapsed_ms: u128, max_age_ms: u64) -> (r: bool)
    ensures
        r == flush_due_spec(len as nat, max_rows as nat, elapsed_ms as int, max_age_ms as int),
{
    len > 0 && (len >= max_rows || elapsed_ms >= max_age_ms as u128)
}

/// Rows waiting to be written, in arrival order, and the instant the
/// batch's age counts from.
pub struct BatchBuffer<T> {
    config: BatchConfig,
    items: Vec<T>,
    opened_at: std::time::Instant,
}

impl<T> BatchBuffer<T> {
    /// The waiting rows, in arrival order.
    pub closed spec fn items(&self) -> Seq<T> {
        self.items@
    }

    /// The flush thresholds.
    pub closed spec fn config_spec(&self) -> BatchConfig {
        self.config
    }

    /// The instant the batch's age counts from: the first push after it was
    /// made or drained.
    pub closed spec fn opened_at(&self) -> std::time::Instant {
        self.opened_at
    }

    /// An empty batch with the given thresholds.
    pub fn new(config: BatchConfig) -> (r: BatchBuffer<T>)
        ensures
            r.items().len() == 0,
            r.config_spec() == config,
    {
        BatchBuffer { config, items: Vec::new(), opened_at: instant_now() }
    }

    /// Appends a row, with `now` the instant of the push: the first row of a
    /// batch starts its age at `now`, a later row leaves it as it was.
    pub fn push_at(&mut self, item: T, now: std::time::Instant)
        ensures
            final(self).items() == old(self).items().push(item),
            final(self).config_spec() == old(self).config_spec(),
            final(self).opened_at() == if old(self).items().len() == 0 {
                now
            } else {
                old(self).opened_at()
            },
    {
        if self.items.len() == 0 {
            self.opened_at = now;
        }
        self.items.push(item);
    }

    /// Appends a row; the first row of a batch starts its age at the
    /// clock's reading (see `push_at`), a later row leaves it as it was.
    pub fn push(&mut self, item: T)
        ensures
            final(self).items() == old(self).items().push(item),
            final(self).config_spec() == old(self).config_spec(),
            old(self).items().len() > 0 ==> final(self).opened_at() == old(self).opened_at(),
    {
        let now = if self.items.len() == 0 {
            instant_now()
        } else {
            self.opened_at
        };
        self.push_at(item, now);
    }

    /// Whether the batch would be due if its first row were `elapsed_ms`
    /// milliseconds old (see `flush_due_spec`).
    pub fn should_flush_after(&self, elapsed_ms: u128) -> (r: bool)
        ensures
            r == flush_due_spec(
                self.items().len(),
                self.config_spec().max_rows as nat,
                elapsed_ms as int,
                self.config_spec().max_age_ms as int,
            ),
    {
        flush_due_at(self.items.len(), self.config.max_rows, elapsed_ms, self.config.max_age_ms)
    }

    /// Whether the batch is due: `should_flush_after` with the age of its
    /// first row by the clock (in whole milliseconds). Never when empty,
    /// always once it holds `max_rows` rows.
    pub fn should_flush(&self) -> (r: bool)
        ensures
            exists|elapsed_ms: int|
                elapsed_ms >= 0 && r == #[trigger] flush_due_spec(
                    self.items().len(),
                    self.config_spec().max_rows as nat,
                    elapsed_ms,
                    self.config_spec().max_age_ms as int,
                ),
            self.items().len() == 0 ==> !r,
            self.items().len() > 0 && self.items().len() >= self.config_spec().max_rows ==> r,
    {
        let elapsed = elapsed_millis(&self.opened_at);
        self.should_flush_after(elapsed)
    }

    /// Whether no row is waiting.
    pub fn is_empty(&self) -> (r: bool)
        ensures
            r == (self.items().len() == 0),
    {
        self.items.len() == 0
    }

    /// How many rows are waiting.
    pub fn len(&self) -> (r: usize)
        ensures
            r == self.items().len(),
    {
        self.items.len()
    }

    /// The flush thresholds.
    pub fn config(&self) -> (r: BatchConfig)
        ensures
            r == self.config_spec(),
    {
        self.config
    }

    /// Takes every waiting row, in arrival order, leaving the batch empty.
    pub fn drain(&mut self) -> (r: Vec<T>)
        ensures
            r@ == old(self).items(),
            final(self).items().len() == 0,
            final(self).config_spec() == old(self).config_spec(),
    {
        self.opened_at = instant_now();
        let mut taken: Vec<T> = Vec::new();
        std::mem::swap(&mut taken, &mut self.items);
        taken
    }
}

} // verus!
