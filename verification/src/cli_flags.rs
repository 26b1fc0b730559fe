//! How each argument of the `afix-convert` command line changes the settings
//! that `parse_flags` reads, and what a command line without flags asks for.

use vstd::prelude::*;

use crate::cli::{
    convert_command, initial_flags, is_flag, read_flags, u8_parse, CommandModel, DepthModel,
    FlagsModel, ModelsModel, SemanticModel,
};
use crate::encoder::EncodeOptions;
use crate::profile::{profile_name, Profile};

verus! {

/// The settings `f` with other encode options.
pub open spec fn with_options(f: FlagsModel, o: EncodeOptions) -> FlagsModel {
    FlagsModel { options: o, models: f.models, batch: f.batch, output: f.output, positional: f.positional }
}

/// `--no-preview` turns the JPEG preview off and leaves every other setting
/// as it was; `--no-semantic` turns semantic object detection off and leaves
/// every other setting as it was. Reading goes on with the next argument.
pub proof fn lemma_switch_flags(args: Seq<Seq<char>>, i: int, f: FlagsModel)
    requires
        0 <= i < args.len(),
    ensures
        args[i] == "--no-preview"@ ==> read_flags(args, i, f) == read_flags(
            args,
            i + 1,
            with_options(
                f,
                EncodeOptions {
                    profile: f.options.profile,
                    quality: f.options.quality,
                    semantic: f.options.semantic,
                    preview: false,
                    preview_quality: f.options.preview_quality,
                },
            ),
        ),
        args[i] == "--no-semantic"@ ==> read_flags(args, i, f) == read_flags(
            args,
            i + 1,
            with_options(
                f,
                EncodeOptions {
                    profile: f.options.profile,
                    quality: f.options.quality,
                    semantic: false,
                    preview: f.options.preview,
                    preview_quality: f.options.preview_quality,
                },
            ),
        ),
{
    reveal_strlit("--profile");
    reveal_strlit("-p");
    reveal_strlit("--quality");
    reveal_strlit("-q");
    reveal_strlit("--no-semantic");
    reveal_strlit("--no-preview");
    reveal_strlit("--preview-quality");
    reveal_strlit("--batch");
    reveal_strlit("--output");
    reveal_strlit("-o");
    reveal_strlit("--semantic-model");
    reveal_strlit("--depth-model");
    reveal_strlit("--sign");
    reveal_strlit("--help");
    reveal_strlit("-h");
    let a = args[i];
    assert("--no-preview"@.len() == 12 && "--no-semantic"@.len() == 13);
    assert("--profile"@.len() == 9 && "-p"@.len() == 2 && "--quality"@.len() == 9 && "-q"@.len()
        == 2);
    if a == "--no-preview"@ || a == "--no-semantic"@ {
        assert(a != "--profile"@ && a != "-p"@ && a != "--quality"@ && a != "-q"@);
    }
    if a == "--no-preview"@ {
        assert(a != "--no-semantic"@);
    }
}

/// `--profile` (or `-p`) followed by a profile's name sets that profile and
/// nothing else, and reading goes on after the name; followed by any other
/// text it stops with `unknown profile '<text>'`.
pub proof fn lemma_profile_flag(args: Seq<Seq<char>>, i: int, f: FlagsModel)
    requires
        0 <= i,
        i + 1 < args.len(),
        args[i] == "--profile"@ || args[i] == "-p"@,
    ensures
        forall|p: Profile|
            profile_name(p) == args[i + 1] ==> read_flags(args, i, f) == read_flags(
                args,
                i + 2,
                with_options(
                    f,
                    EncodeOptions {
                        profile: p,
                        quality: f.options.quality,
                        semantic: f.options.semantic,
                        preview: f.options.preview,
                        preview_quality: f.options.preview_quality,
                    },
                ),
            ),
        (forall|p: Profile| profile_name(p) != args[i + 1]) ==> read_flags(args, i, f) == Err::<
            Option<FlagsModel>,
            Seq<char>,
        >("unknown profile '"@ + args[i + 1] + "'"@),
{
    assert forall|p: Profile| profile_name(p) == args[i + 1] implies read_flags(args, i, f)
        == read_flags(
        args,
        i + 2,
        with_options(
            f,
            EncodeOptions {
                profile: p,
                quality: f.options.quality,
                semantic: f.options.semantic,
                preview: f.options.preview,
                preview_quality: f.options.preview_quality,
            },
        ),
    ) by {
        crate::cli::lemma_parse_name(p);
    }
}

/// `--batch` asks for batch mode and changes nothing else; `--output` (or
/// `-o`) followed by a value sets the output to that value and changes
/// nothing else.
pub proof fn lemma_batch_output_flags(args: Seq<Seq<char>>, i: int, f: FlagsModel)
    requires
        0 <= i < args.len(),
    ensures
        args[i] == "--batch"@ ==> read_flags(args, i, f) == read_flags(
            args,
            i + 1,
            FlagsModel {
                options: f.options,
                models: f.models,
                batch: true,
                output: f.output,
                positional: f.positional,
            },
        ),
        (args[i] == "--output"@ || args[i] == "-o"@) && i + 1 < args.len() ==> read_flags(args, i, f)
            == read_flags(
            args,
            i + 2,
            FlagsModel {
                options: f.options,
                models: f.models,
                batch: f.batch,
                output: Some(args[i + 1]),
                positional: f.positional,
            },
        ),
{
    reveal_strlit("--profile");
    reveal_strlit("-p");
    reveal_strlit("--quality");
    reveal_strlit("-q");
    reveal_strlit("--no-semantic");
    reveal_strlit("--no-preview");
    reveal_strlit("--preview-quality");
    reveal_strlit("--batch");
    reveal_strlit("--output");
    reveal_strlit("-o");
    reveal_strlit("--semantic-model");
    reveal_strlit("--depth-model");
    reveal_strlit("--sign");
    reveal_strlit("--help");
    reveal_strlit("-h");
    let a = args[i];
    if a == "--batch"@ {
        assert(a.len() == 7);
        assert(a != "--profile"@ && a != "-p"@ && a != "--quality"@ && a != "-q"@);
        assert(a != "--no-semantic"@ && a != "--no-preview"@ && a != "--preview-quality"@);
    }
    if a == "--output"@ {
        assert(a.len() == 8);
        assert(a != "--profile"@ && a != "--quality"@ && a != "--no-semantic"@);
        assert(a != "--no-preview"@ && a != "--preview-quality"@ && a != "--batch"@);
        assert(a != "-p"@ && a != "-q"@);
    }
    if a == "-o"@ {
        assert(a.len() == 2 && a[1] == 'o');
        assert(a != "--profile"@ && a != "--quality"@ && a != "--no-semantic"@);
        assert(a != "--no-preview"@ && a != "--preview-quality"@ && a != "--batch"@);
        assert(a != "-p"@ && a != "-q"@);
    }
}

/// `--quality` (or `-q`) followed by a number from 0 to 100 sets that
/// quality and nothing else; a larger number stops with `invalid quality: must
/// be 0-100`, and text that is no `u8` stops with `invalid quality: ` and the
/// parse error. `--preview-quality` works the same way for the preview, with
/// numbers from 1 to 100.
pub proof fn lemma_quality_flags(args: Seq<Seq<char>>, i: int, f: FlagsModel)
    requires
        0 <= i,
        i + 1 < args.len(),
    ensures
        args[i] == "--quality"@ || args[i] == "-q"@ ==> match u8_parse(args[i + 1]) {
            Ok(q) => if q <= 100 {
                read_flags(args, i, f) == read_flags(
                    args,
                    i + 2,
                    with_options(
                        f,
                        EncodeOptions {
                            profile: f.options.profile,
                            quality: q,
                            semantic: f.options.semantic,
                            preview: f.options.preview,
                            preview_quality: f.options.preview_quality,
                        },
                    ),
                )
            } else {
                read_flags(args, i, f) == Err::<Option<FlagsModel>, Seq<char>>(
                    "invalid quality: must be 0-100"@,
                )
            },
            Err(e) => read_flags(args, i, f) == Err::<Option<FlagsModel>, Seq<char>>(
                "invalid quality: "@ + e,
            ),
        },
        args[i] == "--preview-quality"@ ==> match u8_parse(args[i + 1]) {
            Ok(q) => if 1 <= q <= 100 {
                read_flags(args, i, f) == read_flags(
                    args,
                    i + 2,
                    with_options(
                        f,
                        EncodeOptions {
                            profile: f.options.profile,
                            quality: f.options.quality,
                            semantic: f.options.semantic,
                            preview: f.options.preview,
                            preview_quality: q,
                        },
                    ),
                )
            } else {
                read_flags(args, i, f) == Err::<Option<FlagsModel>, Seq<char>>(
                    "invalid preview-quality: must be 1-100"@,
                )
            },
            Err(e) => read_flags(args, i, f) == Err::<Option<FlagsModel>, Seq<char>>(
                "invalid preview-quality: "@ + e,
            ),
        },
{
    reveal_strlit("--profile");
    reveal_strlit("-p");
    reveal_strlit("--quality");
    reveal_strlit("-q");
    reveal_strlit("--no-semantic");
    reveal_strlit("--no-preview");
    reveal_strlit("--preview-quality");
    reveal_strlit("--batch");
    reveal_strlit("--output");
    reveal_strlit("-o");
    reveal_strlit("--semantic-model");
    reveal_strlit("--depth-model");
    reveal_strlit("--sign");
    reveal_strlit("--help");
    reveal_strlit("-h");
    let a = args[i];
    if a == "--quality"@ {
        assert(a.len() == 9 && a[2] == 'q');
        assert(a != "--profile"@ && a != "-p"@);
    }
    if a == "-q"@ {
        assert(a.len() == 2 && a[1] == 'q');
        assert(a != "--profile"@ && a != "-p"@);
    }
    if a == "--preview-quality"@ {
        assert(a.len() == 17);
        assert(a != "--profile"@ && a != "-p"@ && a != "--quality"@ && a != "-q"@);
        assert(a != "--no-semantic"@ && a != "--no-preview"@);
    }
}

/// `--semantic-model` followed by `auto`, `fast` or `accurate` sets that model
/// and nothing else; followed by `none` it sets no model and turns semantic
/// detection off. `--depth-model` followed by `auto` or `none` sets that
/// model and nothing else. `--sign` followed by a path sets that signing key
/// and nothing else.
pub proof fn lemma_model_flags(args: Seq<Seq<char>>, i: int, f: FlagsModel)
    requires
        0 <= i,
        i + 1 < args.len(),
    ensures
        args[i] == "--semantic-model"@ ==> {
            let v = args[i + 1];
            let set = |m: SemanticModel, o: EncodeOptions|
                read_flags(args, i, f) == read_flags(
                    args,
                    i + 2,
                    FlagsModel {
                        options: o,
                        models: ModelsModel {
                            semantic_model: m,
                            depth_model: f.models.depth_model,
                            sign_key: f.models.sign_key,
                        },
                        batch: f.batch,
                        output: f.output,
                        positional: f.positional,
                    },
                );
            &&& v == "auto"@ ==> set(SemanticModel::Auto, f.options)
            &&& v == "fast"@ ==> set(SemanticModel::Fast, f.options)
            &&& v == "accurate"@ ==> set(SemanticModel::Accurate, f.options)
            &&& v == "none"@ ==> set(
                SemanticModel::Disabled,
                EncodeOptions {
                    profile: f.options.profile,
                    quality: f.options.quality,
                    semantic: false,
                    preview: f.options.preview,
                    preview_quality: f.options.preview_quality,
                },
            )
        },
        args[i] == "--depth-model"@ ==> {
            let v = args[i + 1];
            let set = |m: DepthModel|
                read_flags(args, i, f) == read_flags(
                    args,
                    i + 2,
                    FlagsModel {
                        options: f.options,
                        models: ModelsModel {
                            semantic_model: f.models.semantic_model,
                            depth_model: m,
                            sign_key: f.models.sign_key,
                        },
                        batch: f.batch,
                        output: f.output,
                        positional: f.positional,
                    },
                );
            &&& v == "auto"@ ==> set(DepthModel::Auto)
            &&& v == "none"@ ==> set(DepthModel::Disabled)
        },
        args[i] == "--sign"@ ==> read_flags(args, i, f) == read_flags(
            args,
            i + 2,
            FlagsModel {
                options: f.options,
                models: ModelsModel {
                    semantic_model: f.models.semantic_model,
                    depth_model: f.models.depth_model,
                    sign_key: Some(args[i + 1]),
                },
                batch: f.batch,
                output: f.output,
                positional: f.positional,
            },
        ),
{
    reveal_strlit("--profile");
    reveal_strlit("-p");
    reveal_strlit("--quality");
    reveal_strlit("-q");
    reveal_strlit("--no-semantic");
    reveal_strlit("--no-preview");
    reveal_strlit("--preview-quality");
    reveal_strlit("--batch");
    reveal_strlit("--output");
    reveal_strlit("-o");
    reveal_strlit("--semantic-model");
    reveal_strlit("--depth-model");
    reveal_strlit("--sign");
    reveal_strlit("--help");
    reveal_strlit("-h");
    reveal_strlit("auto");
    reveal_strlit("fast");
    reveal_strlit("accurate");
    reveal_strlit("none");
    let a = args[i];
    let v = args[i + 1];
    if a == "--semantic-model"@ || a == "--depth-model"@ || a == "--sign"@ {
        assert(a[0] == '-' && a[1] == '-');
        assert(a != "-p"@ && a != "-q"@ && a != "-o"@);
    }
    if a == "--semantic-model"@ {
        assert(a.len() == 16);
        assert(a != "--profile"@ && a != "--quality"@ && a != "--no-semantic"@);
        assert(a != "--no-preview"@ && a != "--preview-quality"@ && a != "--batch"@);
        assert(a != "--output"@);
    }
    if a == "--depth-model"@ {
        assert(a.len() == 13 && a[2] == 'd');
        assert(a != "--profile"@ && a != "--quality"@ && a != "--no-semantic"@);
        assert(a != "--no-preview"@ && a != "--preview-quality"@ && a != "--batch"@);
        assert(a != "--output"@ && a != "--semantic-model"@);
    }
    if a == "--sign"@ {
        assert(a.len() == 6);
        assert(a != "--profile"@ && a != "--quality"@ && a != "--no-semantic"@);
        assert(a != "--no-preview"@ && a != "--preview-quality"@ && a != "--batch"@);
        assert(a != "--output"@ && a != "--semantic-model"@ && a != "--depth-model"@);
    }
    if v == "fast"@ {
        assert(v[0] == 'f' && v != "auto"@);
    }
    if v == "accurate"@ {
        assert(v.len() == 8 && v != "auto"@ && v != "fast"@);
    }
    if v == "none"@ {
        assert(v.len() == 4 && v[0] == 'n');
        assert("auto"@[0] == 'a' && "fast"@[0] == 'f' && "accurate"@.len() == 8);
        assert(v != "auto"@ && v != "fast"@ && v != "accurate"@);
    }
}

/// `--help` (or `-h`) stops reading and asks for the usage text, whatever
/// follows.
pub proof fn lemma_help_flag(args: Seq<Seq<char>>, i: int, f: FlagsModel)
    requires
        0 <= i < args.len(),
        args[i] == "--help"@ || args[i] == "-h"@,
    ensures
        read_flags(args, i, f) == Ok::<Option<FlagsModel>, Seq<char>>(None),
{
    reveal_strlit("--profile");
    reveal_strlit("-p");
    reveal_strlit("--quality");
    reveal_strlit("-q");
    reveal_strlit("--no-semantic");
    reveal_strlit("--no-preview");
    reveal_strlit("--preview-quality");
    reveal_strlit("--batch");
    reveal_strlit("--output");
    reveal_strlit("-o");
    reveal_strlit("--semantic-model");
    reveal_strlit("--depth-model");
    reveal_strlit("--sign");
    reveal_strlit("--help");
    reveal_strlit("-h");
    let a = args[i];
    if a == "--help"@ {
        assert(a.len() == 6 && a[2] == 'h');
        assert(a != "--sign"@ && a != "--batch"@ && a != "--output"@);
        assert(a != "--profile"@ && a != "--quality"@ && a != "--no-semantic"@);
        assert(a != "--no-preview"@ && a != "--preview-quality"@);
        assert(a != "--semantic-model"@ && a != "--depth-model"@);
        assert(a != "-p"@ && a != "-q"@ && a != "-o"@);
    }
    if a == "-h"@ {
        assert(a.len() == 2 && a[1] == 'h');
        assert(a != "-p"@ && a != "-q"@ && a != "-o"@);
        assert(a != "--sign"@ && a != "--batch"@ && a != "--output"@);
        assert(a != "--profile"@ && a != "--quality"@ && a != "--no-semantic"@);
        assert(a != "--no-preview"@ && a != "--preview-quality"@);
        assert(a != "--semantic-model"@ && a != "--depth-model"@);
    }
}

/// An argument that starts with `-` but is none of the flags stops reading
/// with `unknown flag '<argument>'`.
pub proof fn lemma_unknown_flag(args: Seq<Seq<char>>, i: int, f: FlagsModel)
    requires
        0 <= i < args.len(),
        is_flag(args[i]),
        args[i] != "--profile"@ && args[i] != "-p"@ && args[i] != "--quality"@ && args[i] != "-q"@,
        args[i] != "--no-semantic"@ && args[i] != "--no-preview"@ && args[i] != "--preview-quality"@,
        args[i] != "--batch"@ && args[i] != "--output"@ && args[i] != "-o"@,
        args[i] != "--semantic-model"@ && args[i] != "--depth-model"@ && args[i] != "--sign"@,
        args[i] != "--help"@ && args[i] != "-h"@,
    ensures
        read_flags(args, i, f) == Err::<Option<FlagsModel>, Seq<char>>(
            "unknown flag '"@ + args[i] + "'"@,
        ),
{
}

/// An argument that does not start with `-` is one more input, after those
/// before it, and changes nothing else.
pub proof fn lemma_positional_arg(args: Seq<Seq<char>>, i: int, f: FlagsModel)
    requires
        0 <= i < args.len(),
        !is_flag(args[i]),
    ensures
        read_flags(args, i, f) == read_flags(
            args,
            i + 1,
            FlagsModel {
                options: f.options,
                models: f.models,
                batch: f.batch,
                output: f.output,
                positional: f.positional.push(args[i]),
            },
        ),
{
    reveal_strlit("--profile");
    reveal_strlit("-p");
    reveal_strlit("--quality");
    reveal_strlit("-q");
    reveal_strlit("--no-semantic");
    reveal_strlit("--no-preview");
    reveal_strlit("--preview-quality");
    reveal_strlit("--batch");
    reveal_strlit("--output");
    reveal_strlit("-o");
    reveal_strlit("--semantic-model");
    reveal_strlit("--depth-model");
    reveal_strlit("--sign");
    reveal_strlit("--help");
    reveal_strlit("-h");
    let a = args[i];
    // Every flag name starts with `-`, which `a` does not.
    if a.len() > 0 {
        assert(a[0] != '-');
    }
    assert("--profile"@[0] == '-' && "-p"@[0] == '-' && "--quality"@[0] == '-' && "-q"@[0] == '-');
    assert("--no-semantic"@[0] == '-' && "--no-preview"@[0] == '-' && "--preview-quality"@[0]
        == '-');
    assert("--batch"@[0] == '-' && "--output"@[0] == '-' && "-o"@[0] == '-');
    assert("--semantic-model"@[0] == '-' && "--depth-model"@[0] == '-' && "--sign"@[0] == '-');
    assert("--help"@[0] == '-' && "-h"@[0] == '-');
}

/// Reading arguments none of which is a flag adds them all as inputs, in
/// order, and changes nothing else.
pub proof fn lemma_positionals(args: Seq<Seq<char>>, i: int, f: FlagsModel)
    requires
        0 <= i <= args.len(),
        forall|k: int| i <= k < args.len() ==> !is_flag(#[trigger] args[k]),
    ensures
        read_flags(args, i, f) == Ok::<Option<FlagsModel>, Seq<char>>(
            Some(
                FlagsModel {
                    options: f.options,
                    models: f.models,
                    batch: f.batch,
                    output: f.output,
                    positional: f.positional + args.subrange(i, args.len() as int),
                },
            ),
        ),
    decreases args.len() - i,
{
    if i < args.len() {
        lemma_positional_arg(args, i, f);
        let g = FlagsModel {
            options: f.options,
            models: f.models,
            batch: f.batch,
            output: f.output,
            positional: f.positional.push(args[i]),
        };
        lemma_positionals(args, i + 1, g);
        assert(g.positional + args.subrange(i + 1, args.len() as int) =~= f.positional
            + args.subrange(i, args.len() as int));
    } else {
        assert(f.positional + args.subrange(i, args.len() as int) =~= f.positional);
    }
}

/// A command line without flags converts its first argument, to its second
/// where there is one, with the default options: the `web-lossy` profile,
/// quality 85, semantic detection and the preview on, preview quality 60, the
/// `auto` segmentation model, no depth model and no signing key. Without
/// arguments it asks for the missing input file.
pub proof fn lemma_no_flags(args: Seq<Seq<char>>)
    requires
        forall|k: int| 0 <= k < args.len() ==> !is_flag(#[trigger] args[k]),
    ensures
        args.len() == 0 ==> convert_command(args) == Err::<CommandModel, Seq<char>>(
            "missing input file"@,
        ),
        args.len() > 0 ==> convert_command(args) == Ok::<CommandModel, Seq<char>>(
            CommandModel::Single {
                input: args[0],
                output: if args.len() >= 2 {
                    Some(args[1])
                } else {
                    None
                },
                options: EncodeOptions {
                    profile: Profile::WebLossy,
                    quality: 85,
                    semantic: true,
                    preview: true,
                    preview_quality: 60,
                },
                models: ModelsModel {
                    semantic_model: SemanticModel::Auto,
                    depth_model: DepthModel::Disabled,
                    sign_key: None,
                },
            },
        ),
{
    lemma_positionals(args, 0, initial_flags());
    assert(Seq::<Seq<char>>::empty() + args.subrange(0, args.len() as int) =~= args);
}

} // verus!
