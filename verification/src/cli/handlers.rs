//! Decisions of the command-line subcommands that do not touch files.
use crate::cli::common::resolve_cli_format;
use crate::error::BseError;
use crate::text::lowercase_of;
use crate::writers::write::{is_dir_format, strip_dir_prefix};
use vstd::prelude::*;

verus! {

/// How a conversion runs: the format to read and the format to write (for
/// a directory, the format of its files), and whether each side is a
/// directory.
pub struct ConvertPlan {
    pub read_fmt: String,
    pub write_fmt: String,
    pub input_dir: bool,
    pub output_dir: bool,
}

/// A command-line format name resolved (`rest` stands for `dir-json`).
pub open spec fn resolved(fmt: Seq<char>) -> Seq<char> {
    if crate::formats::ascii_ci_eq("rest"@, lowercase_of(fmt)) {
        "dir-json"@
    } else {
        fmt
    }
}

/// A directory format: its lowercase form starts with `dir-`.
pub open spec fn dir_format(fmt: Seq<char>) -> bool {
    "dir-"@.is_prefix_of(lowercase_of(fmt))
}

/// The format of the files of a directory format.
pub open spec fn stripped(fmt: Seq<char>) -> Seq<char> {
    if dir_format(fmt) && fmt.len() >= 4 {
        fmt.skip(4)
    } else {
        fmt
    }
}

/// The output format of a conversion: the one asked for (resolved), which
/// must not be a directory format for an existing file nor a file format
/// for an existing directory; else the one detected. `Err(())` for a
/// refused format, `Ok(None)` when there is none.
pub open spec fn output_format_spec(
    out_fmt: Option<Seq<char>>,
    output_exists: bool,
    output_is_dir: bool,
    detected_out: Option<Seq<char>>,
) -> Result<Option<Seq<char>>, ()> {
    match out_fmt {
        Some(f) => {
            let r = resolved(f);
            if output_exists && !output_is_dir && dir_format(r) {
                Err(())
            } else if output_exists && output_is_dir && !dir_format(r) {
                Err(())
            } else {
                Ok(Some(r))
            }
        },
        None => Ok(detected_out),
    }
}

/// What a conversion does, from the formats asked for, what the paths are,
/// and the formats detected for them: the plan, or `None` when a format
/// cannot be had or is refused. A side is a directory when its format is
/// a directory format or its path is a directory; the files of a directory
/// are read or written in the format without `dir-`.
pub open spec fn convert_plan_spec(
    in_fmt: Option<Seq<char>>,
    out_fmt: Option<Seq<char>>,
    input_is_dir: bool,
    output_exists: bool,
    output_is_dir: bool,
    detected_in: Option<Seq<char>>,
    detected_out: Option<Seq<char>>,
) -> Option<(Seq<char>, Seq<char>, bool, bool)> {
    let rin = match in_fmt {
        Some(f) => Some(resolved(f)),
        None => detected_in,
    };
    match (rin, output_format_spec(out_fmt, output_exists, output_is_dir, detected_out)) {
        (Some(i), Ok(Some(o))) => {
            let idir = dir_format(i) || input_is_dir;
            let odir = dir_format(o) || output_is_dir;
            Some((if idir { stripped(i) } else { i }, if odir { stripped(o) } else { o }, idir, odir))
        },
        _ => None,
    }
}

/// Plan a basis set conversion: resolve the input format (asked for, else
/// detected) and the output format (asked for, and then checked against
/// what the output path is, else detected), decide which sides are
/// directories, and the formats their files are read and written in. A
/// `ValueError` when the input format is missing, the output format is
/// refused for the output path, or it is missing.
pub fn plan_convert(
    in_fmt: Option<&str>,
    out_fmt: Option<&str>,
    input_is_dir: bool,
    output_exists: bool,
    output_is_dir: bool,
    detected_in: Option<String>,
    detected_out: Option<String>,
) -> (r: Result<ConvertPlan, BseError>)
    ensures
        match convert_plan_spec(
            match in_fmt { Some(f) => Some(f@), None => None },
            match out_fmt { Some(f) => Some(f@), None => None },
            input_is_dir,
            output_exists,
            output_is_dir,
            match detected_in { Some(f) => Some(f@), None => None },
            match detected_out { Some(f) => Some(f@), None => None },
        ) {
            Some((rf, wf, idir, odir)) => r matches Ok(p) && p.read_fmt@ == rf && p.write_fmt@ == wf && p.input_dir == idir
                && p.output_dir == odir,
            None => r matches Err(e) && e is ValueError,
        },
{
    let rin: String = match in_fmt {
        Some(f) => resolve_cli_format(f),
        None => match detected_in {
            Some(d) => d,
            None => {
                return Err(BseError::ValueError("Could not detect input format. Specify format with --in-fmt".to_string()));
            },
        },
    };
    let rout: String = match out_fmt {
        Some(f) => {
            let r = resolve_cli_format(f);
            let d = is_dir_format(r.as_str());
            if output_exists && !output_is_dir && d {
                return Err(BseError::ValueError("Cannot write a directory format to a file path. Use a directory path instead.".to_string()));
            }
            if output_exists && output_is_dir && !d {
                return Err(BseError::ValueError("Cannot write a single-file format to a directory. Use a file path instead.".to_string()));
            }
            r
        },
        None => match detected_out {
            Some(d) => d,
            None => {
                if output_is_dir {
                    return Err(BseError::ValueError("Could not detect output format from directory. Specify format with --out-fmt".to_string()));
                } else {
                    return Err(BseError::ValueError("Could not detect output format from filename. Specify format with --out-fmt".to_string()));
                }
            },
        },
    };
    let input_dir = is_dir_format(rin.as_str()) || input_is_dir;
    let output_dir = is_dir_format(rout.as_str()) || output_is_dir;
    let read_fmt = if input_dir {
        strip_dir_prefix(rin.as_str())
    } else {
        rin
    };
    let write_fmt = if output_dir {
        strip_dir_prefix(rout.as_str())
    } else {
        rout
    };
    Ok(ConvertPlan { read_fmt, write_fmt, input_dir, output_dir })
}

} // verus!
