//! What holds of the options: each sets its own setting and no other, and they are read in order.

use vstd::prelude::*;

use crate::config::{parsed, setting_of, ConfigView, Program, Setting};
use crate::text::{decimal, signed_value, unsigned_value};
use crate::text_laws::numbers_are_read_as_written;

verus! {

/// Numbers are set as they are written: an option with a number that fits sets its own setting to
/// this number, and no other.
pub proof fn numbers_are_set(config: ConfigView, n: nat)
    requires
        n <= i32::MAX,
    ensures
        ({
            let (c, d, v) = (config, decimal(n), n as int);
            &&& c.with(Setting::Batch, d) == (ConfigView { batch: v, ..c })
            &&& c.with(Setting::Accumulate, d) == (ConfigView { accumulate: v, ..c })
            &&& c.with(Setting::Rank, d) == (ConfigView { rank: v, ..c })
            &&& c.with(Setting::Steps, d) == (ConfigView { t: v, ..c })
            &&& c.with(Setting::NumEpochs, d) == (ConfigView { num_epochs: v, ..c })
            &&& c.with(Setting::DModel, d) == (ConfigView { d_model: v, ..c })
            &&& c.with(Setting::NumHeads, d) == (ConfigView { num_heads: v, ..c })
            &&& c.with(Setting::NumBlocks, d) == (ConfigView { num_blocks: v, ..c })
            &&& c.with(Setting::ValidateEvery, d) == (ConfigView { validate_every: v, ..c })
            &&& c.with(Setting::ValBatch, d) == (ConfigView { val_batch: v, ..c })
            &&& c.with(Setting::LogEvery, d) == (ConfigView { log_every: v, ..c })
            &&& c.with(Setting::Seed, d) == (ConfigView { seed: v, ..c })
            &&& c.with(Setting::GroupSize, d) == (ConfigView { group_size: v, ..c })
            &&& c.with(Setting::NoiseReuse, d) == (ConfigView { noise_reuse: v, ..c })
            &&& c.with(Setting::GroupSize, seq!['-'] + d) == (ConfigView { group_size: -v, ..c })
            &&& c.with(Setting::NoiseReuse, seq!['-'] + d) == (ConfigView { noise_reuse: -v, ..c })
        }),
{
    numbers_are_read_as_written(n, i32::MIN as int, i32::MAX as int);
    numbers_are_read_as_written(n, i32::MIN as int, usize::MAX as int);
    numbers_are_read_as_written(n, i32::MIN as int, u64::MAX as int);
}

/// What is no number changes nothing: an option for a number that gets none leaves all settings as
/// they were.
pub proof fn bad_numbers_change_nothing(config: ConfigView, setting: Setting, text: Seq<char>)
    requires
        match setting {
            Setting::Batch
            | Setting::Accumulate
            | Setting::Rank
            | Setting::Steps
            | Setting::NumEpochs
            | Setting::DModel
            | Setting::NumHeads
            | Setting::NumBlocks
            | Setting::ValidateEvery
            | Setting::ValBatch
            | Setting::LogEvery => unsigned_value(text, usize::MAX as int) is Err,
            Setting::Seed => unsigned_value(text, u64::MAX as int) is Err,
            Setting::GroupSize | Setting::NoiseReuse => signed_value(
                text,
                i32::MIN as int,
                i32::MAX as int,
            ) is Err,
            _ => false,
        },
    ensures
        config.with(setting, text) == config,
{
}

/// Reading goes on behind what was read.
proof fn reading_goes_on(
    program: Program,
    front: Seq<Seq<char>>,
    rest: Seq<Seq<char>>,
    i: int,
    config: ConfigView,
)
    requires
        0 <= i,
    ensures
        parsed(program, front + rest, front.len() + i, config) == parsed(program, rest, i, config),
    decreases rest.len() - i,
{
    let all = front + rest;
    let at = front.len() + i;
    if i < rest.len() {
        assert(all[at] == rest[i]);
        match setting_of(program, rest[i]) {
            None => {
                reading_goes_on(program, front, rest, i + 1, config);
            },
            Some(Setting::Verify) => {
                reading_goes_on(
                    program,
                    front,
                    rest,
                    i + 1,
                    config.with(Setting::Verify, Seq::empty()),
                );
            },
            Some(setting) => {
                if i + 1 < rest.len() {
                    assert(all[at + 1] == rest[i + 1]);
                    reading_goes_on(program, front, rest, i + 2, config.with(setting, rest[i + 1]));
                } else {
                    reading_goes_on(
                        program,
                        front,
                        rest,
                        i + 1,
                        config.with(setting, Seq::empty()),
                    );
                }
            },
        }
    }
}

/// Options are read in order: an option that takes a value takes the argument behind it, whatever
/// that is, and what follows is read on top of it. A later option thus overrides an earlier one.
pub proof fn options_are_read_in_order(
    program: Program,
    name: Seq<char>,
    text: Seq<char>,
    rest: Seq<Seq<char>>,
    config: ConfigView,
)
    ensures
        parsed(program, seq![name, text] + rest, 0, config) == (match setting_of(program, name) {
            Some(setting) => if setting == Setting::Verify {
                parsed(program, seq![text] + rest, 0, ConfigView { verify: true, ..config })
            } else {
                parsed(program, rest, 0, config.with(setting, text))
            },
            None => parsed(program, seq![text] + rest, 0, config),
        }),
{
    let all = seq![name, text] + rest;
    assert(all[0] == name && all[1] == text);
    assert(all =~= seq![name] + (seq![text] + rest));
    match setting_of(program, name) {
        Some(setting) => {
            if setting == Setting::Verify {
                reading_goes_on(
                    program,
                    seq![name],
                    seq![text] + rest,
                    0,
                    config.with(Setting::Verify, Seq::empty()),
                );
            } else {
                reading_goes_on(program, seq![name, text], rest, 0, config.with(setting, text));
            }
        },
        None => {
            reading_goes_on(program, seq![name], seq![text] + rest, 0, config);
        },
    }
}

} // verus!
