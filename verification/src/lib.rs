//! Splits an annotated source file into the ordered cells that a
//! notebook-style interactive kernel executes one by one.
//!
//! Directive comments embedded in the source (`%%` followed by a payload)
//! either carry a kernel-level command or force a cell boundary. The
//! scanner over one comment's text lives in [`comment_extractor`]; the
//! partitioner that walks a parsed file's top-level nodes lives in
//! [`rust_parser`]; the cells themselves live in [`cells`].

pub mod cells;
pub mod comment_extractor;
pub mod error;
pub mod rust_parser;
pub mod text;

use vstd::prelude::*;
use vstd::string::StringExecFns;

use crate::cells::{join_lines, CellSources, CellType};
use crate::error::ParserError;
use crate::rust_parser::{spec_split_rust, CodeParser, RustParser};

verus! {

/// The kernels whose sources this crate knows how to split.
pub enum ParsableKernel {
    Rust,
    Python3,
}

impl ParsableKernel {
    /// Recognizes a kernel by its name; any other name is unsupported.
    pub fn try_from_str(kernel: &str) -> (r: Result<ParsableKernel, ParserError>)
        ensures
            match r {
                Ok(ParsableKernel::Rust) => kernel@ == "rust"@,
                Ok(ParsableKernel::Python3) => kernel@ == "python3"@,
                Err(e) => kernel@ != "rust"@ && kernel@ != "python3"@ && e
                    == ParserError::UnsupportedLanguage,
            },
            kernel@ == "rust"@ ==> r matches Ok(ParsableKernel::Rust),
            kernel@ == "python3"@ ==> r matches Ok(ParsableKernel::Python3),
    {
        proof {
            reveal_strlit("rust");
            reveal_strlit("python3");
            assert("rust"@.len() == 4);
            assert("python3"@.len() == 7);
            assert("rust"@ != "python3"@);
        }
        let k = kernel.to_owned();
        if k == String::from_str("rust") {
            Ok(ParsableKernel::Rust)
        } else if k == String::from_str("python3") {
            Ok(ParsableKernel::Python3)
        } else {
            Err(ParserError::UnsupportedLanguage)
        }
    }
}

/// What splitting a document for a kernel must produce: the Rust split
/// for the Rust kernel; an unsupported-language error for any other
/// kernel, the recognized-but-unparsable one included.
pub open spec fn spec_split(code: Seq<char>, kernel: Seq<char>) -> Result<
    Option<Seq<Seq<Seq<char>>>>,
    ParserError,
> {
    if kernel == "rust"@ {
        spec_split_rust(code)
    } else {
        Err(ParserError::UnsupportedLanguage)
    }
}

/// Splits a source file into cells for the named kernel. An unsupported
/// kernel name is rejected before any parsing begins; `Ok(None)` means
/// the external parser produced no tree, so there is nothing to run.
pub fn split(code: &str, kernel: &str) -> (r: Result<Option<CellSources>, ParserError>)
    ensures
        match r {
            Ok(Some(cs)) => spec_split(code@, kernel@) == Ok::<
                Option<Seq<Seq<Seq<char>>>>,
                ParserError,
            >(Some(cs.fragments_view())) && (forall|i: int|
                0 <= i < cs.cell_sources@.len() ==> (#[trigger] cs.cell_sources@[i]).cell_type
                    == CellType::Code),
            Ok(None) => spec_split(code@, kernel@) == Ok::<
                Option<Seq<Seq<Seq<char>>>>,
                ParserError,
            >(None),
            Err(e) => spec_split(code@, kernel@) == Err::<Option<Seq<Seq<Seq<char>>>>, ParserError>(
                e,
            ),
        },
{
    match ParsableKernel::try_from_str(kernel) {
        Err(e) => Err(e),
        Ok(ParsableKernel::Rust) => RustParser.parse(code),
        Ok(ParsableKernel::Python3) => Err(ParserError::UnsupportedLanguage),
    }
}

/// What preparing code for a kernel must produce: the joined cells of a
/// split for the Rust kernel, nothing when the parser yields no tree, a
/// rejection for the recognized-but-unparsable kernel, and the code
/// untouched for a kernel this crate does not know how to split.
pub open spec fn spec_code_to_run(code: Seq<char>, kernel: Seq<char>) -> Result<
    Option<Seq<char>>,
    ParserError,
> {
    if kernel == "rust"@ {
        match spec_split_rust(code) {
            Err(e) => Err(e),
            Ok(None) => Ok(None),
            Ok(Some(cells)) => Ok(
                Some(join_lines(cells.map_values(|c: Seq<Seq<char>>| join_lines(c)))),
            ),
        }
    } else if kernel == "python3"@ {
        Err(ParserError::UnsupportedLanguage)
    } else {
        Ok(Some(code))
    }
}

/// The text to hand a kernel for execution: a splittable kernel's source
/// is split into cells and the cells joined back with line feeds; a
/// kernel this crate cannot split runs its code untouched. `Ok(None)`
/// means the parser produced no tree and there is nothing to run.
pub fn code_to_run(kernel_name: &str, code: &str) -> (r: Result<Option<String>, ParserError>)
    ensures
        match r {
            Ok(Some(s)) => spec_code_to_run(code@, kernel_name@) == Ok::<
                Option<Seq<char>>,
                ParserError,
            >(Some(s@)),
            Ok(None) => spec_code_to_run(code@, kernel_name@) == Ok::<Option<Seq<char>>, ParserError>(
                None,
            ),
            Err(e) => spec_code_to_run(code@, kernel_name@) == Err::<Option<Seq<char>>, ParserError>(
                e,
            ),
        },
{
    match ParsableKernel::try_from_str(kernel_name) {
        Err(_) => Ok(Some(code.to_owned())),
        Ok(ParsableKernel::Python3) => Err(ParserError::UnsupportedLanguage),
        Ok(ParsableKernel::Rust) => {
            match RustParser.parse(code) {
                Err(e) => Err(e),
                Ok(None) => Ok(None),
                Ok(Some(cell_sources)) => {
                    let joined = cell_sources.as_one_line_code();
                    proof {
                        assert(cell_sources.cell_lines() =~= cell_sources.fragments_view().map_values(
                            |c: Seq<Seq<char>>| join_lines(c),
                        ));
                    }
                    Ok(Some(joined))
                },
            }
        },
    }
}

} // verus!
