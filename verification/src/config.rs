//! Command lines of the training programs.
//!
//! An option takes the next argument as its value, or an empty one at the end of
//! the line. A value that does not parse leaves the setting as it is; what is no
//! option is skipped.

use vstd::prelude::*;

use crate::text::{
    optional_text, parse_i32, parse_unsigned, parse_usize, pieces, same_text, signed_value,
    split_pieces, texts, trim, trimmed, unsigned_value,
};

verus! {

/// The training programs.
#[derive(Clone, Copy, Debug, PartialEq, Eq, Structural)]
pub enum Program {
    /// Accumulated training of the spiking classifier.
    Accumulate,
    /// Training of the spiking transformer.
    Transformer,
}

/// How an answer is rewarded.
#[derive(Clone, Copy, Debug, PartialEq, Eq, Structural)]
pub enum Reward {
    /// By its log-likelihood.
    Loglik,
    /// By whether it is right.
    Binary,
}

/// The settings of a training program.
pub struct Config {
    /// Samples per epoch.
    pub batch: usize,
    /// Chunks per epoch.
    pub accumulate: usize,
    /// The rank of low-rank noise.
    pub rank: usize,
    /// Time steps.
    pub t: usize,
    /// The texts given for the noise scale, in order.
    pub sigma: Vec<String>,
    /// The texts given for the learning rate, in order.
    pub lr: Vec<String>,
    /// How an answer is rewarded.
    pub reward: Reward,
    /// How many fitnesses are normalised together; zero for all.
    pub group_size: i32,
    /// How many epochs share their noise; zero for all.
    pub noise_reuse: i32,
    /// Number of epochs.
    pub num_epochs: usize,
    /// The seed of the shuffles.
    pub seed: u64,
    /// The hidden dimensions.
    pub hidden: Vec<usize>,
    /// The dimension of the model.
    pub d_model: usize,
    /// Heads per block.
    pub num_heads: usize,
    /// Number of blocks.
    pub num_blocks: usize,
    /// Where the data is.
    pub mnist_dir: Option<String>,
    /// Epochs between validations.
    pub validate_every: usize,
    /// Samples per validation.
    pub val_batch: usize,
    /// Epochs between log lines.
    pub log_every: usize,
    /// Where results are written.
    pub csv_out: Option<String>,
    /// Whether to check equivalence in place of training.
    pub verify: bool,
}

/// The settings of a training program, as mathematical values.
#[verifier::ext_equal]
pub struct ConfigView {
    /// Samples per epoch.
    pub batch: int,
    /// Chunks per epoch.
    pub accumulate: int,
    /// The rank of low-rank noise.
    pub rank: int,
    /// Time steps.
    pub t: int,
    /// The texts given for the noise scale, in order.
    pub sigma: Seq<Seq<char>>,
    /// The texts given for the learning rate, in order.
    pub lr: Seq<Seq<char>>,
    /// How an answer is rewarded.
    pub reward: Reward,
    /// How many fitnesses are normalised together; zero for all.
    pub group_size: int,
    /// How many epochs share their noise; zero for all.
    pub noise_reuse: int,
    /// Number of epochs.
    pub num_epochs: int,
    /// The seed of the shuffles.
    pub seed: int,
    /// The hidden dimensions.
    pub hidden: Seq<usize>,
    /// The dimension of the model.
    pub d_model: int,
    /// Heads per block.
    pub num_heads: int,
    /// Number of blocks.
    pub num_blocks: int,
    /// Where the data is.
    pub mnist_dir: Option<Seq<char>>,
    /// Epochs between validations.
    pub validate_every: int,
    /// Samples per validation.
    pub val_batch: int,
    /// Epochs between log lines.
    pub log_every: int,
    /// Where results are written.
    pub csv_out: Option<Seq<char>>,
    /// Whether to check equivalence in place of training.
    pub verify: bool,
}

impl View for Config {
    type V = ConfigView;

    open spec fn view(&self) -> ConfigView {
        ConfigView {
            batch: self.batch as int,
            accumulate: self.accumulate as int,
            rank: self.rank as int,
            t: self.t as int,
            sigma: texts(self.sigma@),
            lr: texts(self.lr@),
            reward: self.reward,
            group_size: self.group_size as int,
            noise_reuse: self.noise_reuse as int,
            num_epochs: self.num_epochs as int,
            seed: self.seed as int,
            hidden: self.hidden@,
            d_model: self.d_model as int,
            num_heads: self.num_heads as int,
            num_blocks: self.num_blocks as int,
            mnist_dir: optional_text(self.mnist_dir),
            validate_every: self.validate_every as int,
            val_batch: self.val_batch as int,
            log_every: self.log_every as int,
            csv_out: optional_text(self.csv_out),
            verify: self.verify,
        }
    }
}

/// The options.
#[derive(Clone, Copy, Debug, PartialEq, Eq, Structural)]
pub enum Setting {
    /// `--batch`.
    Batch,
    /// `--accumulate`.
    Accumulate,
    /// `--rank`.
    Rank,
    /// `--T`.
    Steps,
    /// `--sigma`.
    Sigma,
    /// `--lr`.
    Lr,
    /// `--reward`.
    Reward,
    /// `--group-size`.
    GroupSize,
    /// `--noise-reuse`.
    NoiseReuse,
    /// `--num-epochs`.
    NumEpochs,
    /// `--seed`.
    Seed,
    /// `--hidden`.
    Hidden,
    /// `--mnist-dir`.
    MnistDir,
    /// `--validate-every`.
    ValidateEvery,
    /// `--val-batch`.
    ValBatch,
    /// `--log-every`.
    LogEvery,
    /// `--csv-out`.
    CsvOut,
    /// `--verify`.
    Verify,
    /// `--d-model`.
    DModel,
    /// `--num-heads`.
    NumHeads,
    /// `--num-blocks`.
    NumBlocks,
}

/// The option that an argument names in a program.
pub open spec fn setting_of(program: Program, arg: Seq<char>) -> Option<Setting> {
    if arg == "--batch"@ {
        Some(Setting::Batch)
    } else if arg == "--accumulate"@ {
        Some(Setting::Accumulate)
    } else if arg == "--rank"@ {
        Some(Setting::Rank)
    } else if arg == "--T"@ {
        Some(Setting::Steps)
    } else if arg == "--sigma"@ {
        Some(Setting::Sigma)
    } else if arg == "--lr"@ {
        Some(Setting::Lr)
    } else if arg == "--reward"@ {
        Some(Setting::Reward)
    } else if arg == "--group-size"@ && program == Program::Accumulate {
        Some(Setting::GroupSize)
    } else if arg == "--noise-reuse"@ && program == Program::Accumulate {
        Some(Setting::NoiseReuse)
    } else if arg == "--num-epochs"@ {
        Some(Setting::NumEpochs)
    } else if arg == "--seed"@ {
        Some(Setting::Seed)
    } else if arg == "--hidden"@ && program == Program::Accumulate {
        Some(Setting::Hidden)
    } else if arg == "--mnist-dir"@ {
        Some(Setting::MnistDir)
    } else if arg == "--validate-every"@ {
        Some(Setting::ValidateEvery)
    } else if arg == "--val-batch"@ {
        Some(Setting::ValBatch)
    } else if arg == "--log-every"@ {
        Some(Setting::LogEvery)
    } else if arg == "--csv-out"@ {
        Some(Setting::CsvOut)
    } else if arg == "--verify"@ && program == Program::Accumulate {
        Some(Setting::Verify)
    } else if arg == "--d-model"@ && program == Program::Transformer {
        Some(Setting::DModel)
    } else if arg == "--num-heads"@ && program == Program::Transformer {
        Some(Setting::NumHeads)
    } else if arg == "--num-blocks"@ && program == Program::Transformer {
        Some(Setting::NumBlocks)
    } else {
        None
    }
}

/// The option that an argument names in a program.
pub fn find_setting(program: Program, arg: &str) -> (setting: Option<Setting>)
    ensures
        setting == setting_of(program, arg@),
{
    if same_text(arg, "--batch") {
        Some(Setting::Batch)
    } else if same_text(arg, "--accumulate") {
        Some(Setting::Accumulate)
    } else if same_text(arg, "--rank") {
        Some(Setting::Rank)
    } else if same_text(arg, "--T") {
        Some(Setting::Steps)
    } else if same_text(arg, "--sigma") {
        Some(Setting::Sigma)
    } else if same_text(arg, "--lr") {
        Some(Setting::Lr)
    } else if same_text(arg, "--reward") {
        Some(Setting::Reward)
    } else if same_text(arg, "--group-size") && program == Program::Accumulate {
        Some(Setting::GroupSize)
    } else if same_text(arg, "--noise-reuse") && program == Program::Accumulate {
        Some(Setting::NoiseReuse)
    } else if same_text(arg, "--num-epochs") {
        Some(Setting::NumEpochs)
    } else if same_text(arg, "--seed") {
        Some(Setting::Seed)
    } else if same_text(arg, "--hidden") && program == Program::Accumulate {
        Some(Setting::Hidden)
    } else if same_text(arg, "--mnist-dir") {
        Some(Setting::MnistDir)
    } else if same_text(arg, "--validate-every") {
        Some(Setting::ValidateEvery)
    } else if same_text(arg, "--val-batch") {
        Some(Setting::ValBatch)
    } else if same_text(arg, "--log-every") {
        Some(Setting::LogEvery)
    } else if same_text(arg, "--csv-out") {
        Some(Setting::CsvOut)
    } else if same_text(arg, "--verify") && program == Program::Accumulate {
        Some(Setting::Verify)
    } else if same_text(arg, "--d-model") && program == Program::Transformer {
        Some(Setting::DModel)
    } else if same_text(arg, "--num-heads") && program == Program::Transformer {
        Some(Setting::NumHeads)
    } else if same_text(arg, "--num-blocks") && program == Program::Transformer {
        Some(Setting::NumBlocks)
    } else {
        None
    }
}

// ---------------------------------------------------------------------------
// Values
// ---------------------------------------------------------------------------
/// The number that a text spells, or the one that was set before.
pub open spec fn number_or(text: Seq<char>, max: int, before: int) -> int {
    match unsigned_value(text, max) {
        Ok(n) => n,
        Err(_) => before,
    }
}

/// The signed number that a text spells, or the one that was set before.
pub open spec fn signed_or(text: Seq<char>, before: int) -> int {
    match signed_value(text, i32::MIN as int, i32::MAX as int) {
        Ok(n) => n,
        Err(_) => before,
    }
}

fn usize_or(text: &str, before: usize) -> (n: usize)
    ensures
        n == number_or(text@, usize::MAX as int, before as int),
{
    match parse_usize(text) {
        Ok(n) => n,
        Err(_) => before,
    }
}

fn u64_or(text: &str, before: u64) -> (n: u64)
    ensures
        n == number_or(text@, u64::MAX as int, before as int),
{
    match parse_unsigned(text, u64::MAX) {
        Ok(n) => n,
        Err(_) => before,
    }
}

fn i32_or(text: &str, before: i32) -> (n: i32)
    ensures
        n == signed_or(text@, before as int),
{
    match parse_i32(text) {
        Ok(n) => n,
        Err(_) => before,
    }
}

/// The numbers among some texts, each trimmed; what is no number is dropped.
pub open spec fn numbers(parts: Seq<Seq<char>>) -> Seq<usize>
    decreases parts.len(),
{
    if parts.len() == 0 {
        Seq::empty()
    } else {
        let before = numbers(parts.drop_last());
        match unsigned_value(trimmed(parts.last()), usize::MAX as int) {
            Ok(n) => before.push(n as usize),
            Err(_) => before,
        }
    }
}

/// The numbers of a list separated by commas; what is no number is dropped.
pub fn parse_list(text: &str) -> (list: Vec<usize>)
    ensures
        list@ == numbers(pieces(text@, ',')),
{
    let parts = split_pieces(text, ',');
    let mut list: Vec<usize> = Vec::new();
    let mut i: usize = 0;
    proof {
        assert(texts(parts@).take(0) =~= Seq::empty());
    }
    while i < parts.len()
        invariant
            i <= parts@.len(),
            list@ == numbers(texts(parts@).take(i as int)),
        decreases parts@.len() - i,
    {
        proof {
            assert(texts(parts@).take(i + 1).drop_last() =~= texts(parts@).take(i as int));
            assert(texts(parts@).take(i + 1).last() == parts@[i as int]@);
        }
        match parse_usize(trim(parts[i].as_str()).as_str()) {
            Ok(n) => {
                list.push(n);
            },
            Err(_) => {},
        }
        i = i + 1;
    }
    proof {
        assert(texts(parts@).take(i as int) =~= texts(parts@));
    }
    list
}

// ---------------------------------------------------------------------------
// Settings
// ---------------------------------------------------------------------------
impl ConfigView {
    /// The settings after an option with a value.
    pub open spec fn with(self, setting: Setting, text: Seq<char>) -> ConfigView {
        match setting {
            Setting::Batch => ConfigView {
                batch: number_or(text, usize::MAX as int, self.batch),
                ..self
            },
            Setting::Accumulate => ConfigView {
                accumulate: number_or(text, usize::MAX as int, self.accumulate),
                ..self
            },
            Setting::Rank => ConfigView {
                rank: number_or(text, usize::MAX as int, self.rank),
                ..self
            },
            Setting::Steps => ConfigView {
                t: number_or(text, usize::MAX as int, self.t),
                ..self
            },
            Setting::NumEpochs => ConfigView {
                num_epochs: number_or(text, usize::MAX as int, self.num_epochs),
                ..self
            },
            Setting::DModel => ConfigView {
                d_model: number_or(text, usize::MAX as int, self.d_model),
                ..self
            },
            Setting::NumHeads => ConfigView {
                num_heads: number_or(text, usize::MAX as int, self.num_heads),
                ..self
            },
            Setting::NumBlocks => ConfigView {
                num_blocks: number_or(text, usize::MAX as int, self.num_blocks),
                ..self
            },
            Setting::ValidateEvery => ConfigView {
                validate_every: number_or(text, usize::MAX as int, self.validate_every),
                ..self
            },
            Setting::ValBatch => ConfigView {
                val_batch: number_or(text, usize::MAX as int, self.val_batch),
                ..self
            },
            Setting::LogEvery => ConfigView {
                log_every: number_or(text, usize::MAX as int, self.log_every),
                ..self
            },
            Setting::Sigma => ConfigView { sigma: self.sigma.push(text), ..self },
            Setting::Lr => ConfigView { lr: self.lr.push(text), ..self },
            Setting::Reward => ConfigView {
                reward: if text == "binary"@ {
                    Reward::Binary
                } else {
                    Reward::Loglik
                },
                ..self
            },
            Setting::GroupSize => ConfigView {
                group_size: signed_or(text, self.group_size),
                ..self
            },
            Setting::NoiseReuse => ConfigView {
                noise_reuse: signed_or(text, self.noise_reuse),
                ..self
            },
            Setting::Seed => ConfigView {
                seed: number_or(text, u64::MAX as int, self.seed),
                ..self
            },
            Setting::Hidden => ConfigView { hidden: numbers(pieces(text, ',')), ..self },
            Setting::MnistDir => ConfigView { mnist_dir: Some(text), ..self },
            Setting::CsvOut => ConfigView { csv_out: Some(text), ..self },
            Setting::Verify => ConfigView { verify: true, ..self },
        }
    }
}

/// The settings after the arguments from `i`: an option other than the check takes the next
/// argument as its value, or an empty one where there is none.
pub open spec fn parsed(
    program: Program,
    args: Seq<Seq<char>>,
    i: int,
    config: ConfigView,
) -> ConfigView
    decreases args.len() - i,
{
    if i < 0 || i >= args.len() {
        config
    } else {
        match setting_of(program, args[i]) {
            None => parsed(program, args, i + 1, config),
            Some(Setting::Verify) => parsed(
                program,
                args,
                i + 1,
                config.with(Setting::Verify, Seq::empty()),
            ),
            Some(setting) => if i + 1 < args.len() {
                parsed(program, args, i + 2, config.with(setting, args[i + 1]))
            } else {
                parsed(program, args, i + 1, config.with(setting, Seq::empty()))
            },
        }
    }
}

/// What is no option is skipped: arguments that name none change nothing.
pub proof fn unknown_arguments_are_skipped(
    program: Program,
    args: Seq<Seq<char>>,
    i: int,
    config: ConfigView,
)
    requires
        0 <= i,
        forall|k: int| i <= k < args.len() ==> setting_of(program, #[trigger] args[k]) is None,
    ensures
        parsed(program, args, i, config) == config,
    decreases args.len() - i,
{
    if i < args.len() {
        unknown_arguments_are_skipped(program, args, i + 1, config);
    }
}

/// The settings of a program without arguments.
pub open spec fn default_settings(program: Program) -> ConfigView {
    match program {
        Program::Accumulate => ConfigView {
            batch: 60000,
            accumulate: 5,
            rank: 64,
            t: 8,
            sigma: Seq::empty(),
            lr: Seq::empty(),
            reward: Reward::Loglik,
            group_size: 0,
            noise_reuse: 0,
            num_epochs: 3000,
            seed: 0,
            hidden: seq![128usize, 128usize],
            d_model: 0,
            num_heads: 0,
            num_blocks: 0,
            mnist_dir: None,
            validate_every: 50,
            val_batch: 10000,
            log_every: 10,
            csv_out: None,
            verify: false,
        },
        Program::Transformer => ConfigView {
            batch: 2048,
            accumulate: 4,
            rank: 16,
            t: 8,
            sigma: Seq::empty(),
            lr: Seq::empty(),
            reward: Reward::Loglik,
            group_size: 0,
            noise_reuse: 0,
            num_epochs: 300,
            seed: 0,
            hidden: Seq::empty(),
            d_model: 32,
            num_heads: 4,
            num_blocks: 2,
            mnist_dir: None,
            validate_every: 25,
            val_batch: 1000,
            log_every: 5,
            csv_out: None,
            verify: false,
        },
    }
}

impl Config {
    /// The settings of a program without arguments.
    pub fn defaults(program: Program) -> (config: Config)
        ensures
            config@ == default_settings(program),
    {
        let mut hidden: Vec<usize> = Vec::new();
        let config = match program {
            Program::Accumulate => {
                hidden.push(128);
                hidden.push(128);
                Config {
                    batch: 60000,
                    accumulate: 5,
                    rank: 64,
                    t: 8,
                    sigma: Vec::new(),
                    lr: Vec::new(),
                    reward: Reward::Loglik,
                    group_size: 0,
                    noise_reuse: 0,
                    num_epochs: 3000,
                    seed: 0,
                    hidden,
                    d_model: 0,
                    num_heads: 0,
                    num_blocks: 0,
                    mnist_dir: None,
                    validate_every: 50,
                    val_batch: 10000,
                    log_every: 10,
                    csv_out: None,
                    verify: false,
                }
            },
            Program::Transformer => {
                Config {
                    batch: 2048,
                    accumulate: 4,
                    rank: 16,
                    t: 8,
                    sigma: Vec::new(),
                    lr: Vec::new(),
                    reward: Reward::Loglik,
                    group_size: 0,
                    noise_reuse: 0,
                    num_epochs: 300,
                    seed: 0,
                    hidden,
                    d_model: 32,
                    num_heads: 4,
                    num_blocks: 2,
                    mnist_dir: None,
                    validate_every: 25,
                    val_batch: 1000,
                    log_every: 5,
                    csv_out: None,
                    verify: false,
                }
            },
        };
        proof {
            assert(config@ =~= default_settings(program));
        }
        config
    }

    /// Sets an option.
    fn set(&mut self, setting: Setting, text: &str)
        ensures
            final(self)@ == old(self)@.with(setting, text@),
    {
        let ghost before = self@;
        match setting {
            Setting::Batch => {
                self.batch = usize_or(text, self.batch);
            },
            Setting::Accumulate => {
                self.accumulate = usize_or(text, self.accumulate);
            },
            Setting::Rank => {
                self.rank = usize_or(text, self.rank);
            },
            Setting::Steps => {
                self.t = usize_or(text, self.t);
            },
            Setting::NumEpochs => {
                self.num_epochs = usize_or(text, self.num_epochs);
            },
            Setting::DModel => {
                self.d_model = usize_or(text, self.d_model);
            },
            Setting::NumHeads => {
                self.num_heads = usize_or(text, self.num_heads);
            },
            Setting::NumBlocks => {
                self.num_blocks = usize_or(text, self.num_blocks);
            },
            Setting::ValidateEvery => {
                self.validate_every = usize_or(text, self.validate_every);
            },
            Setting::ValBatch => {
                self.val_batch = usize_or(text, self.val_batch);
            },
            Setting::LogEvery => {
                self.log_every = usize_or(text, self.log_every);
            },
            Setting::Sigma => {
                let ghost prior = self.sigma@;
                self.sigma.push(text.to_owned());
                proof {
                    assert(texts(self.sigma@) =~= texts(prior).push(text@));
                }
            },
            Setting::Lr => {
                let ghost prior = self.lr@;
                self.lr.push(text.to_owned());
                proof {
                    assert(texts(self.lr@) =~= texts(prior).push(text@));
                }
            },
            Setting::Reward => {
                self.reward = if same_text(text, "binary") {
                    Reward::Binary
                } else {
                    Reward::Loglik
                };
            },
            Setting::GroupSize => {
                self.group_size = i32_or(text, self.group_size);
            },
            Setting::NoiseReuse => {
                self.noise_reuse = i32_or(text, self.noise_reuse);
            },
            Setting::Seed => {
                self.seed = u64_or(text, self.seed);
            },
            Setting::Hidden => {
                self.hidden = parse_list(text);
            },
            Setting::MnistDir => {
                self.mnist_dir = Some(text.to_owned());
            },
            Setting::CsvOut => {
                self.csv_out = Some(text.to_owned());
            },
            Setting::Verify => {
                self.verify = true;
            },
        }
        proof {
            assert(self@ =~= before.with(setting, text@));
        }
    }

    /// The settings that a command line gives a program.
    pub fn parse_args(program: Program, args: &[String]) -> (config: Config)
        ensures
            config@ == parsed(program, texts(args@), 0, default_settings(program)),
    {
        let mut config = Config::defaults(program);
        let n: usize = args.len();
        let mut i: usize = 0;
        proof {
            assert(forall|k: int|
                0 <= k < args@.len() ==> texts(args@)[k] == (#[trigger] args@[k])@);
        }
        while i < n
            invariant
                n == args@.len(),
                i <= n,
                forall|k: int| 0 <= k < args@.len() ==> texts(args@)[k] == (#[trigger] args@[k])@,
                parsed(program, texts(args@), 0, default_settings(program)) == parsed(
                    program,
                    texts(args@),
                    i as int,
                    config@,
                ),
            decreases n - i,
        {
            match find_setting(program, args[i].as_str()) {
                None => {},
                Some(Setting::Verify) => {
                    proof {
                        reveal_strlit("");
                        assert(""@ =~= Seq::<char>::empty());
                    }
                    config.set(Setting::Verify, "");
                },
                Some(setting) => {
                    if i + 1 < n {
                        i = i + 1;
                        config.set(setting, args[i].as_str());
                    } else {
                        proof {
                            reveal_strlit("");
                            assert(""@ =~= Seq::<char>::empty());
                        }
                        config.set(setting, "");
                    }
                },
            }
            i = i + 1;
        }
        config
    }
}

/// The dimensions of a noise benchmark.
#[derive(Clone, Copy, Debug, PartialEq, Eq, Structural)]
pub struct BenchConfig {
    /// Samples.
    pub n: usize,
    /// Input dimension.
    pub b: usize,
    /// Output dimension.
    pub a: usize,
    /// Rank.
    pub r: usize,
    /// Time steps.
    pub t: usize,
    /// Repetitions.
    pub iters: usize,
}

impl BenchConfig {
    /// The dimensions after an argument and the value behind it; an argument that is no option
    /// changes nothing.
    pub open spec fn with(self, arg: Seq<char>, text: Seq<char>) -> BenchConfig {
        let value = |before: usize| number_or(text, usize::MAX as int, before as int) as usize;
        if arg == "--n"@ {
            BenchConfig { n: value(self.n), ..self }
        } else if arg == "--b"@ {
            BenchConfig { b: value(self.b), ..self }
        } else if arg == "--a"@ {
            BenchConfig { a: value(self.a), ..self }
        } else if arg == "--r"@ {
            BenchConfig { r: value(self.r), ..self }
        } else if arg == "--T"@ {
            BenchConfig { t: value(self.t), ..self }
        } else if arg == "--iters"@ {
            BenchConfig { iters: value(self.iters), ..self }
        } else {
            self
        }
    }
}

/// Whether an argument is an option of a noise benchmark.
pub open spec fn is_bench_option(arg: Seq<char>) -> bool {
    ||| arg == "--n"@
    ||| arg == "--b"@
    ||| arg == "--a"@
    ||| arg == "--r"@
    ||| arg == "--T"@
    ||| arg == "--iters"@
}

/// The dimensions after the arguments from `i`.
pub open spec fn bench_parsed(args: Seq<Seq<char>>, i: int, config: BenchConfig) -> BenchConfig
    decreases args.len() - i,
{
    if i < 0 || i >= args.len() {
        config
    } else if !is_bench_option(args[i]) {
        bench_parsed(args, i + 1, config)
    } else if i + 1 < args.len() {
        bench_parsed(args, i + 2, config.with(args[i], args[i + 1]))
    } else {
        bench_parsed(args, i + 1, config.with(args[i], Seq::empty()))
    }
}

/// The dimensions that a command line gives a noise benchmark.
pub fn parse_bench_args(args: &[String]) -> (config: BenchConfig)
    ensures
        config == bench_parsed(
            texts(args@),
            0,
            BenchConfig { n: 12000, b: 784, a: 128, r: 64, t: 8, iters: 10 },
        ),
{
    let mut c = BenchConfig { n: 12000, b: 784, a: 128, r: 64, t: 8, iters: 10 };
    let ghost start = c;
    let n: usize = args.len();
    let mut i: usize = 0;
    proof {
        assert(forall|k: int| 0 <= k < args@.len() ==> texts(args@)[k] == (#[trigger] args@[k])@);
        reveal_strlit("");
        assert(""@ =~= Seq::<char>::empty());
    }
    while i < n
        invariant
            n == args@.len(),
            i <= n,
            ""@ == Seq::<char>::empty(),
            forall|k: int| 0 <= k < args@.len() ==> texts(args@)[k] == (#[trigger] args@[k])@,
            bench_parsed(texts(args@), 0, start) == bench_parsed(texts(args@), i as int, c),
        decreases n - i,
    {
        let arg: &str = args[i].as_str();
        let known: bool = same_text(arg, "--n") || same_text(arg, "--b") || same_text(arg, "--a")
            || same_text(arg, "--r") || same_text(arg, "--T") || same_text(arg, "--iters");
        if known {
            let more: bool = i + 1 < n;
            let text: &str = if more {
                args[i + 1].as_str()
            } else {
                ""
            };
            if same_text(arg, "--n") {
                c.n = usize_or(text, c.n);
            } else if same_text(arg, "--b") {
                c.b = usize_or(text, c.b);
            } else if same_text(arg, "--a") {
                c.a = usize_or(text, c.a);
            } else if same_text(arg, "--r") {
                c.r = usize_or(text, c.r);
            } else if same_text(arg, "--T") {
                c.t = usize_or(text, c.t);
            } else if same_text(arg, "--iters") {
                c.iters = usize_or(text, c.iters);
            }
            if more {
                i = i + 1;
            }
        }
        i = i + 1;
    }
    c
}

} // verus!
