//! The command line of `afix-convert`: its flags, and which files batch mode
//! takes.
//!
//! ```text
//! afix-convert [OPTIONS] <INPUT> [OUTPUT]
//! afix-convert --batch <INPUT_DIR> --output <OUTPUT_DIR> [OPTIONS]
//! ```

use vstd::prelude::*;

use crate::encoder::EncodeOptions;
use crate::profile::{profile_name, Profile};
use crate::text::str_equal;

verus! {

// ── Numbers on the command line ──────────────────────────────────────────────

/// What `str::parse::<u8>` gives for a text: the number, or the text of its
/// error.
pub uninterp spec fn u8_parse(s: Seq<char>) -> Result<u8, Seq<char>>;

/// Parse a text as a `u8` with `str::parse`; an error comes back as its
/// message.
#[verifier::external_body]
fn parse_u8(s: &str) -> (r: Result<u8, String>)
    ensures
        match r {
            Ok(v) => u8_parse(s@) == Ok::<u8, Seq<char>>(v),
            Err(e) => u8_parse(s@) == Err::<u8, Seq<char>>(e@),
        },
{
    s.parse::<u8>().map_err(|e| e.to_string())
}

// ── Profiles by name ─────────────────────────────────────────────────────────

/// No two profiles have the same name, so a name read back gives the profile
/// it was written from.
pub proof fn lemma_profile_names_distinct(p: Profile, q: Profile)
    ensures
        profile_name(p) == profile_name(q) ==> p == q,
{
    reveal_strlit("web-lossy");
    reveal_strlit("web-lossless");
    reveal_strlit("spatial");
    reveal_strlit("trusted");
    reveal_strlit("full");
    // Names of different profiles differ in their length or in their first
    // or fifth character.
    let (a, b) = (profile_name(p), profile_name(q));
    assert(p != q ==> a.len() != b.len() || a[0] != b[0] || a[4] != b[4]);
}

/// What parsing a profile's name gives: the profile of that name, or the
/// message `unknown profile '<text>'`.
pub open spec fn profile_parse(s: Seq<char>) -> Result<Profile, Seq<char>> {
    if exists|p: Profile| profile_name(p) == s {
        Ok(choose|p: Profile| profile_name(p) == s)
    } else {
        Err("unknown profile '"@ + s + "'"@)
    }
}

/// Parsing the name of a profile gives back that profile.
pub proof fn lemma_parse_name(p: Profile)
    ensures
        profile_parse(profile_name(p)) == Ok::<Profile, Seq<char>>(p),
{
    let q = choose|q: Profile| profile_name(q) == profile_name(p);
    lemma_profile_names_distinct(p, q);
}

/// Parse a profile from its name.
fn parse_profile(s: &str) -> (r: Result<Profile, String>)
    ensures
        match r {
            Ok(p) => profile_parse(s@) == Ok::<Profile, Seq<char>>(p),
            Err(e) => profile_parse(s@) == Err::<Profile, Seq<char>>(e@),
        },
{
    let r = Profile::parse(s);
    proof {
        if let Ok(p) = r {
            let q = choose|q: Profile| profile_name(q) == s@;
            lemma_profile_names_distinct(p, q);
        }
    }
    r
}

// ── Models ───────────────────────────────────────────────────────────────────

/// The segmentation model of semantic object detection (`--semantic-model`).
#[derive(Debug, Clone, Copy, PartialEq, Eq, Structural)]
pub enum SemanticModel {
    /// `auto`, the default.
    Auto,
    /// `fast`.
    Fast,
    /// `accurate`.
    Accurate,
    /// `none`: no semantic object detection.
    Disabled,
}

/// The depth estimation model (`--depth-model`).
#[derive(Debug, Clone, Copy, PartialEq, Eq, Structural)]
pub enum DepthModel {
    /// `auto`.
    Auto,
    /// `none`, the default.
    Disabled,
}

/// What parsing a segmentation model's name gives: the model, or the
/// message `unknown semantic model '<text>'`.
pub open spec fn semantic_model_parse(s: Seq<char>) -> Result<SemanticModel, Seq<char>> {
    if s == "auto"@ {
        Ok(SemanticModel::Auto)
    } else if s == "fast"@ {
        Ok(SemanticModel::Fast)
    } else if s == "accurate"@ {
        Ok(SemanticModel::Accurate)
    } else if s == "none"@ {
        Ok(SemanticModel::Disabled)
    } else {
        Err("unknown semantic model '"@ + s + "'"@)
    }
}

/// What parsing a depth model's name gives: the model, or the message
/// `unknown depth model '<text>'`.
pub open spec fn depth_model_parse(s: Seq<char>) -> Result<DepthModel, Seq<char>> {
    if s == "auto"@ {
        Ok(DepthModel::Auto)
    } else if s == "none"@ {
        Ok(DepthModel::Disabled)
    } else {
        Err("unknown depth model '"@ + s + "'"@)
    }
}

/// The message that a text is not the name of a model of a kind.
fn unknown_model(kind: &str, s: &str) -> (msg: String)
    ensures
        msg@ == "unknown "@ + kind@ + " model '"@ + s@ + "'"@,
{
    let mut msg = String::from_str("unknown ");
    msg.append(kind);
    msg.append(" model '");
    msg.append(s);
    msg.append("'");
    msg
}

/// Parse a segmentation model from its name (`auto`, `fast`, `accurate` or
/// `none`).
pub fn parse_semantic_model(s: &str) -> (r: Result<SemanticModel, String>)
    ensures
        match r {
            Ok(m) => semantic_model_parse(s@) == Ok::<SemanticModel, Seq<char>>(m),
            Err(e) => semantic_model_parse(s@) == Err::<SemanticModel, Seq<char>>(e@),
        },
{
    if str_equal(s, "auto") {
        Ok(SemanticModel::Auto)
    } else if str_equal(s, "fast") {
        Ok(SemanticModel::Fast)
    } else if str_equal(s, "accurate") {
        Ok(SemanticModel::Accurate)
    } else if str_equal(s, "none") {
        Ok(SemanticModel::Disabled)
    } else {
        proof {
            reveal_strlit("semantic");
        }
        let e = unknown_model("semantic", s);
        assert(e@ =~= "unknown semantic model '"@ + s@ + "'"@) by {
            reveal_strlit("unknown ");
            reveal_strlit(" model '");
            reveal_strlit("unknown semantic model '");
        }
        Err(e)
    }
}

/// Parse a depth model from its name (`auto` or `none`).
pub fn parse_depth_model(s: &str) -> (r: Result<DepthModel, String>)
    ensures
        match r {
            Ok(m) => depth_model_parse(s@) == Ok::<DepthModel, Seq<char>>(m),
            Err(e) => depth_model_parse(s@) == Err::<DepthModel, Seq<char>>(e@),
        },
{
    if str_equal(s, "auto") {
        Ok(DepthModel::Auto)
    } else if str_equal(s, "none") {
        Ok(DepthModel::Disabled)
    } else {
        let e = unknown_model("depth", s);
        assert(e@ =~= "unknown depth model '"@ + s@ + "'"@) by {
            reveal_strlit("depth");
            reveal_strlit("unknown ");
            reveal_strlit(" model '");
            reveal_strlit("unknown depth model '");
        }
        Err(e)
    }
}

/// The models and the signing key that the command line names. The encoder
/// runs no segmentation or depth model of its own and does not sign; of these
/// choices it acts on `--semantic-model none` only, which turns semantic
/// detection off.
#[derive(Debug, Clone, PartialEq, Eq)]
pub struct Models {
    /// The segmentation model (`--semantic-model`, `auto` by default).
    pub semantic_model: SemanticModel,
    /// The depth estimation model (`--depth-model`, `none` by default).
    pub depth_model: DepthModel,
    /// The path of the Ed25519 private key for C2PA signing (`--sign`).
    pub sign_key: Option<String>,
}

/// The view of `Models`.
pub struct ModelsModel {
    pub semantic_model: SemanticModel,
    pub depth_model: DepthModel,
    pub sign_key: Option<Seq<char>>,
}

impl View for Models {
    type V = ModelsModel;

    open spec fn view(&self) -> ModelsModel {
        ModelsModel {
            semantic_model: self.semantic_model,
            depth_model: self.depth_model,
            sign_key: opt_view(self.sign_key),
        }
    }
}

// ── Flags ────────────────────────────────────────────────────────────────────

/// The settings that the flags read so far have made.
pub struct Flags {
    /// The encode options.
    pub options: EncodeOptions,
    /// The models and the signing key.
    pub models: Models,
    /// Whether `--batch` was given.
    pub batch: bool,
    /// The value of the last `--output`.
    pub output: Option<String>,
    /// The arguments that are not flags, in order.
    pub positional: Vec<String>,
}

/// The view of `Flags`.
pub struct FlagsModel {
    pub options: EncodeOptions,
    pub models: ModelsModel,
    pub batch: bool,
    pub output: Option<Seq<char>>,
    pub positional: Seq<Seq<char>>,
}

/// The view of an optional string.
pub open spec fn opt_view(o: Option<String>) -> Option<Seq<char>> {
    match o {
        Some(s) => Some(s@),
        None => None,
    }
}

/// The views of strings.
pub open spec fn strings_view(v: Seq<String>) -> Seq<Seq<char>> {
    v.map_values(|s: String| s@)
}

impl View for Flags {
    type V = FlagsModel;

    open spec fn view(&self) -> FlagsModel {
        FlagsModel {
            options: self.options,
            models: self.models@,
            batch: self.batch,
            output: opt_view(self.output),
            positional: strings_view(self.positional@),
        }
    }
}

/// The settings before any flag: the `web-lossy` profile, quality 85,
/// semantic detection and the preview on, preview quality 60, the `auto`
/// segmentation model, no depth model, no signing key, one file.
pub open spec fn initial_flags() -> FlagsModel {
    FlagsModel {
        options: EncodeOptions {
            profile: Profile::WebLossy,
            quality: 85,
            semantic: true,
            preview: true,
            preview_quality: 60,
        },
        models: ModelsModel {
            semantic_model: SemanticModel::Auto,
            depth_model: DepthModel::Disabled,
            sign_key: None,
        },
        batch: false,
        output: None,
        positional: Seq::empty(),
    }
}

/// Whether an argument is a flag: it starts with `-`.
pub open spec fn is_flag(a: Seq<char>) -> bool {
    a.len() > 0 && a[0] == '-'
}

/// The settings with another profile.
pub open spec fn with_profile(f: FlagsModel, p: Profile) -> FlagsModel {
    FlagsModel { options: EncodeOptions { profile: p, ..f.options }, ..f }
}

/// The settings with another quality.
pub open spec fn with_quality(f: FlagsModel, q: u8) -> FlagsModel {
    FlagsModel { options: EncodeOptions { quality: q, ..f.options }, ..f }
}

/// The settings with another preview quality.
pub open spec fn with_preview_quality(f: FlagsModel, q: u8) -> FlagsModel {
    FlagsModel { options: EncodeOptions { preview_quality: q, ..f.options }, ..f }
}

/// The settings with semantic detection off.
pub open spec fn without_semantic(f: FlagsModel) -> FlagsModel {
    FlagsModel { options: EncodeOptions { semantic: false, ..f.options }, ..f }
}

/// The settings with another segmentation model; `none` also turns semantic
/// detection off.
pub open spec fn with_semantic_model(f: FlagsModel, m: SemanticModel) -> FlagsModel {
    FlagsModel {
        options: if m == SemanticModel::Disabled {
            EncodeOptions { semantic: false, ..f.options }
        } else {
            f.options
        },
        models: ModelsModel { semantic_model: m, ..f.models },
        ..f
    }
}

/// The settings with another depth model.
pub open spec fn with_depth_model(f: FlagsModel, m: DepthModel) -> FlagsModel {
    FlagsModel { models: ModelsModel { depth_model: m, ..f.models }, ..f }
}

/// The settings with a signing key.
pub open spec fn with_sign_key(f: FlagsModel, k: Seq<char>) -> FlagsModel {
    FlagsModel { models: ModelsModel { sign_key: Some(k), ..f.models }, ..f }
}

/// The settings with the preview off.
pub open spec fn without_preview(f: FlagsModel) -> FlagsModel {
    FlagsModel { options: EncodeOptions { preview: false, ..f.options }, ..f }
}

/// Reading the arguments from position `i` on, with the settings `f` made so
/// far: the settings at the end (`Some`), `None` where `--help` comes first,
/// or the message of the first error. Flags are read in order, and a later
/// one overrides an earlier one.
pub open spec fn read_flags(args: Seq<Seq<char>>, i: int, f: FlagsModel) -> Result<
    Option<FlagsModel>,
    Seq<char>,
>
    decreases args.len() - i,
{
    if i < 0 || i >= args.len() {
        Ok(Some(f))
    } else {
        let a = args[i];
        if a == "--profile"@ || a == "-p"@ {
            if i + 1 >= args.len() {
                Err("--profile requires a value"@)
            } else {
                match profile_parse(args[i + 1]) {
                    Ok(p) => read_flags(args, i + 2, with_profile(f, p)),
                    Err(e) => Err(e),
                }
            }
        } else if a == "--quality"@ || a == "-q"@ {
            if i + 1 >= args.len() {
                Err("--quality requires a value"@)
            } else {
                match u8_parse(args[i + 1]) {
                    Ok(q) => if q <= 100 {
                        read_flags(args, i + 2, with_quality(f, q))
                    } else {
                        Err("invalid quality: must be 0-100"@)
                    },
                    Err(e) => Err("invalid quality: "@ + e),
                }
            }
        } else if a == "--no-semantic"@ {
            read_flags(args, i + 1, without_semantic(f))
        } else if a == "--no-preview"@ {
            read_flags(args, i + 1, without_preview(f))
        } else if a == "--preview-quality"@ {
            if i + 1 >= args.len() {
                Err("--preview-quality requires a value"@)
            } else {
                match u8_parse(args[i + 1]) {
                    Ok(q) => if 1 <= q <= 100 {
                        read_flags(args, i + 2, with_preview_quality(f, q))
                    } else {
                        Err("invalid preview-quality: must be 1-100"@)
                    },
                    Err(e) => Err("invalid preview-quality: "@ + e),
                }
            }
        } else if a == "--batch"@ {
            read_flags(args, i + 1, FlagsModel { batch: true, ..f })
        } else if a == "--output"@ || a == "-o"@ {
            if i + 1 >= args.len() {
                Err("--output requires a value"@)
            } else {
                read_flags(args, i + 2, FlagsModel { output: Some(args[i + 1]), ..f })
            }
        } else if a == "--semantic-model"@ {
            if i + 1 >= args.len() {
                Err("--semantic-model requires a value"@)
            } else {
                match semantic_model_parse(args[i + 1]) {
                    Ok(m) => read_flags(args, i + 2, with_semantic_model(f, m)),
                    Err(e) => Err(e),
                }
            }
        } else if a == "--depth-model"@ {
            if i + 1 >= args.len() {
                Err("--depth-model requires a value"@)
            } else {
                match depth_model_parse(args[i + 1]) {
                    Ok(m) => read_flags(args, i + 2, with_depth_model(f, m)),
                    Err(e) => Err(e),
                }
            }
        } else if a == "--sign"@ {
            if i + 1 >= args.len() {
                Err("--sign requires a value"@)
            } else {
                read_flags(args, i + 2, with_sign_key(f, args[i + 1]))
            }
        } else if a == "--help"@ || a == "-h"@ {
            Ok(None)
        } else if is_flag(a) {
            Err("unknown flag '"@ + a + "'"@)
        } else {
            read_flags(args, i + 1, FlagsModel { positional: f.positional.push(a), ..f })
        }
    }
}

/// Whether an argument starts with `-`.
fn starts_with_dash(a: &str) -> (r: bool)
    ensures
        r == is_flag(a@),
{
    a.unicode_len() > 0 && a.get_char(0) == '-'
}

/// The value after the flag at `i`, or the message that it is missing.
fn flag_value<'a>(args: &'a [String], i: usize, missing: &str) -> (r: Result<&'a String, String>)
    requires
        i < args@.len(),
    ensures
        match r {
            Ok(v) => i + 1 < args@.len() && v == args@[i + 1],
            Err(e) => i + 1 >= args@.len() && e@ == missing@,
        },
{
    if i < args.len() - 1 {
        Ok(&args[i + 1])
    } else {
        Err(missing.to_string())
    }
}

/// Read the flags of the command line: the settings they make, `None` where
/// `--help` comes before any error, or the message of the first error.
#[verifier::rlimit(40)]
pub fn parse_flags(args: &[String]) -> (r: Result<Option<Flags>, String>)
    ensures
        match r {
            Ok(Some(f)) => read_flags(strings_view(args@), 0, initial_flags()) == Ok::<
                Option<FlagsModel>,
                Seq<char>,
            >(Some(f@)),
            Ok(None) => read_flags(strings_view(args@), 0, initial_flags()) == Ok::<
                Option<FlagsModel>,
                Seq<char>,
            >(None),
            Err(e) => read_flags(strings_view(args@), 0, initial_flags()) == Err::<
                Option<FlagsModel>,
                Seq<char>,
            >(e@),
        },
{
    let ghost av = strings_view(args@);
    let mut f = Flags {
        options: EncodeOptions {
            profile: Profile::WebLossy,
            quality: 85,
            semantic: true,
            preview: true,
            preview_quality: 60,
        },
        models: Models {
            semantic_model: SemanticModel::Auto,
            depth_model: DepthModel::Disabled,
            sign_key: None,
        },
        batch: false,
        output: None,
        positional: Vec::new(),
    };
    assert(f@.positional =~= Seq::<Seq<char>>::empty());
    let mut i: usize = 0;
    while i < args.len()
        invariant
            av == strings_view(args@),
            i <= args@.len(),
            read_flags(av, 0, initial_flags()) == read_flags(av, i as int, f@),
        decreases args@.len() - i,
    {
        let a = args[i].as_str();
        assert(a@ == av[i as int]);
        if str_equal(a, "--profile") || str_equal(a, "-p") {
            let s = match flag_value(args, i, "--profile requires a value") {
                Ok(s) => s,
                Err(e) => return Err(e),
            };
            assert(s@ == av[i + 1]);
            let p = match parse_profile(s.as_str()) {
                Ok(p) => p,
                Err(e) => return Err(e),
            };
            f.options.profile = p;
            i = i + 2;
        } else if str_equal(a, "--quality") || str_equal(a, "-q") {
            let s = match flag_value(args, i, "--quality requires a value") {
                Ok(s) => s,
                Err(e) => return Err(e),
            };
            assert(s@ == av[i + 1]);
            let q = match parse_u8(s.as_str()) {
                Ok(q) => q,
                Err(e) => {
                    let mut msg = String::from_str("invalid quality: ");
                    msg.append(e.as_str());
                    return Err(msg);
                },
            };
            if q > 100 {
                return Err(String::from_str("invalid quality: must be 0-100"));
            }
            f.options.quality = q;
            i = i + 2;
        } else if str_equal(a, "--no-semantic") {
            f.options.semantic = false;
            i = i + 1;
        } else if str_equal(a, "--no-preview") {
            f.options.preview = false;
            i = i + 1;
        } else if str_equal(a, "--preview-quality") {
            let s = match flag_value(args, i, "--preview-quality requires a value") {
                Ok(s) => s,
                Err(e) => return Err(e),
            };
            assert(s@ == av[i + 1]);
            let q = match parse_u8(s.as_str()) {
                Ok(q) => q,
                Err(e) => {
                    let mut msg = String::from_str("invalid preview-quality: ");
                    msg.append(e.as_str());
                    return Err(msg);
                },
            };
            if q < 1 || q > 100 {
                return Err(String::from_str("invalid preview-quality: must be 1-100"));
            }
            f.options.preview_quality = q;
            i = i + 2;
        } else if str_equal(a, "--batch") {
            f.batch = true;
            i = i + 1;
        } else if str_equal(a, "--output") || str_equal(a, "-o") {
            let s = match flag_value(args, i, "--output requires a value") {
                Ok(s) => s,
                Err(e) => return Err(e),
            };
            assert(s@ == av[i + 1]);
            f.output = Some(s.clone());
            i = i + 2;
        } else if str_equal(a, "--semantic-model") {
            let s = match flag_value(args, i, "--semantic-model requires a value") {
                Ok(s) => s,
                Err(e) => return Err(e),
            };
            assert(s@ == av[i + 1]);
            let m = match parse_semantic_model(s.as_str()) {
                Ok(m) => m,
                Err(e) => return Err(e),
            };
            f.models.semantic_model = m;
            if m == SemanticModel::Disabled {
                f.options.semantic = false;
            }
            i = i + 2;
        } else if str_equal(a, "--depth-model") {
            let s = match flag_value(args, i, "--depth-model requires a value") {
                Ok(s) => s,
                Err(e) => return Err(e),
            };
            assert(s@ == av[i + 1]);
            let m = match parse_depth_model(s.as_str()) {
                Ok(m) => m,
                Err(e) => return Err(e),
            };
            f.models.depth_model = m;
            i = i + 2;
        } else if str_equal(a, "--sign") {
            let s = match flag_value(args, i, "--sign requires a value") {
                Ok(s) => s,
                Err(e) => return Err(e),
            };
            assert(s@ == av[i + 1]);
            f.models.sign_key = Some(s.clone());
            i = i + 2;
        } else if str_equal(a, "--help") || str_equal(a, "-h") {
            return Ok(None);
        } else if starts_with_dash(a) {
            let mut msg = String::from_str("unknown flag '");
            msg.append(a);
            msg.append("'");
            return Err(msg);
        } else {
            let ghost old_pos = f.positional@;
            f.positional.push(args[i].clone());
            assert(strings_view(f.positional@) =~= strings_view(old_pos).push(a@));
            i = i + 1;
        }
    }
    Ok(Some(f))
}

// ── What to convert ──────────────────────────────────────────────────────────

/// What a command line asks `afix-convert` to do.
#[derive(Debug, Clone, PartialEq, Eq)]
pub enum ConvertCommand {
    /// Print the usage text.
    Help,
    /// Convert every image of a directory into another directory.
    Batch { input_dir: String, output_dir: String, options: EncodeOptions, models: Models },
    /// Convert one file; without an output name, the output is the input's
    /// file stem with the extension `afix`.
    Single { input: String, output: Option<String>, options: EncodeOptions, models: Models },
}

/// The view of a `ConvertCommand`.
pub enum CommandModel {
    Help,
    Batch {
        input_dir: Seq<char>,
        output_dir: Seq<char>,
        options: EncodeOptions,
        models: ModelsModel,
    },
    Single {
        input: Seq<char>,
        output: Option<Seq<char>>,
        options: EncodeOptions,
        models: ModelsModel,
    },
}

impl View for ConvertCommand {
    type V = CommandModel;

    open spec fn view(&self) -> CommandModel {
        match self {
            ConvertCommand::Help => CommandModel::Help,
            ConvertCommand::Batch { input_dir, output_dir, options, models } => CommandModel::Batch {
                input_dir: input_dir@,
                output_dir: output_dir@,
                options: *options,
                models: models@,
            },
            ConvertCommand::Single { input, output, options, models } => CommandModel::Single {
                input: input@,
                output: opt_view(*output),
                options: *options,
                models: models@,
            },
        }
    }
}

/// What the settings ask for: in batch mode the first non-flag argument is
/// the input directory and `--output` is required; otherwise the first
/// non-flag argument is the input, and the output is `--output`, else the
/// second non-flag argument, else left to be derived from the input.
pub open spec fn command_of(f: FlagsModel) -> Result<CommandModel, Seq<char>> {
    if f.batch {
        if f.positional.len() == 0 {
            Err("batch mode requires an input directory"@)
        } else {
            match f.output {
                Some(o) => Ok(
                    CommandModel::Batch {
                        input_dir: f.positional[0],
                        output_dir: o,
                        options: f.options,
                        models: f.models,
                    },
                ),
                None => Err("batch mode requires --output <DIR>"@),
            }
        }
    } else if f.positional.len() == 0 {
        Err("missing input file"@)
    } else {
        Ok(
            CommandModel::Single {
                input: f.positional[0],
                output: match f.output {
                    Some(o) => Some(o),
                    None => if f.positional.len() >= 2 {
                        Some(f.positional[1])
                    } else {
                        None
                    },
                },
                options: f.options,
                models: f.models,
            },
        )
    }
}

/// What a command line asks for, or the message of its first error.
pub open spec fn convert_command(args: Seq<Seq<char>>) -> Result<CommandModel, Seq<char>> {
    match read_flags(args, 0, initial_flags()) {
        Ok(Some(f)) => command_of(f),
        Ok(None) => Ok(CommandModel::Help),
        Err(e) => Err(e),
    }
}

/// Read the command line of `afix-convert` (the arguments after the program
/// name).
pub fn parse_convert_args(args: &[String]) -> (r: Result<ConvertCommand, String>)
    ensures
        match r {
            Ok(c) => convert_command(strings_view(args@)) == Ok::<CommandModel, Seq<char>>(c@),
            Err(e) => convert_command(strings_view(args@)) == Err::<CommandModel, Seq<char>>(e@),
        },
{
    let f = match parse_flags(args) {
        Ok(Some(f)) => f,
        Ok(None) => return Ok(ConvertCommand::Help),
        Err(e) => return Err(e),
    };
    let Flags { options, models, batch, output, positional } = f;
    if batch {
        if positional.len() == 0 {
            return Err(String::from_str("batch mode requires an input directory"));
        }
        match output {
            Some(o) => Ok(
                ConvertCommand::Batch {
                    input_dir: positional[0].clone(),
                    output_dir: o,
                    options,
                    models,
                },
            ),
            None => Err(String::from_str("batch mode requires --output <DIR>")),
        }
    } else if positional.len() == 0 {
        Err(String::from_str("missing input file"))
    } else {
        let out = match output {
            Some(o) => Some(o),
            None => if positional.len() >= 2 {
                Some(positional[1].clone())
            } else {
                None
            },
        };
        Ok(ConvertCommand::Single { input: positional[0].clone(), output: out, options, models })
    }
}

// ── Batch mode ───────────────────────────────────────────────────────────────

/// `c` with ASCII capitals made small.
pub open spec fn ascii_lower(c: char) -> char {
    if 'A' <= c <= 'Z' {
        ((c as u32) + 32) as char
    } else {
        c
    }
}

/// The image extensions that batch mode converts.
pub open spec fn image_extensions() -> Seq<Seq<char>> {
    seq!["jpg"@, "jpeg"@, "png"@, "webp"@]
}

/// Whether a file extension names an image that batch mode converts: `jpg`,
/// `jpeg`, `png` or `webp`, in any case.
pub open spec fn is_image_ext(e: Seq<char>) -> bool {
    image_extensions().contains(e.map_values(|c: char| ascii_lower(c)))
}

/// Whether `a`, with ASCII capitals made small, is `lit`.
fn lower_equals(a: &str, lit: &str) -> (r: bool)
    ensures
        r == (a@.map_values(|c: char| ascii_lower(c)) == lit@),
{
    let n = a.unicode_len();
    if n != lit.unicode_len() {
        assert(a@.map_values(|c: char| ascii_lower(c)).len() != lit@.len());
        return false;
    }
    let mut i: usize = 0;
    while i < n
        invariant
            n == a@.len(),
            n == lit@.len(),
            i <= n,
            forall|j: int| 0 <= j < i ==> ascii_lower(a@[j]) == lit@[j],
        decreases n - i,
    {
        let c = a.get_char(i);
        if 'A' <= c && c <= 'Z' {
            let code: u32 = c as u32 + 32;
            if code != lit.get_char(i) as u32 {
                assert(a@.map_values(|c: char| ascii_lower(c))[i as int] != lit@[i as int]);
                return false;
            }
        } else if c != lit.get_char(i) {
            assert(a@.map_values(|c: char| ascii_lower(c))[i as int] != lit@[i as int]);
            return false;
        }
        i = i + 1;
    }
    assert(a@.map_values(|c: char| ascii_lower(c)) =~= lit@);
    true
}

/// Whether a file extension names an image that batch mode converts: `jpg`,
/// `jpeg`, `png` or `webp`, in any case.
pub fn is_image_extension(ext: &str) -> (r: bool)
    ensures
        r == is_image_ext(ext@),
{
    let r = lower_equals(ext, "jpg") || lower_equals(ext, "jpeg") || lower_equals(ext, "png")
        || lower_equals(ext, "webp");
    proof {
        let l = ext@.map_values(|c: char| ascii_lower(c));
        let s = image_extensions();
        assert(s[0] == "jpg"@ && s[1] == "jpeg"@ && s[2] == "png"@ && s[3] == "webp"@);
        if s.contains(l) {
            let k = choose|k: int| 0 <= k < s.len() && s[k] == l;
            assert(k == 0 || k == 1 || k == 2 || k == 3);
        }
        if r {
            if l == "jpg"@ {
                assert(s[0] == l);
            } else if l == "jpeg"@ {
                assert(s[1] == l);
            } else if l == "png"@ {
                assert(s[2] == l);
            } else {
                assert(s[3] == l);
            }
        }
    }
    r
}

} // verus!
