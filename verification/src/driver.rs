use vstd::prelude::*;

use crate::text::{ends_with, last_index_of, owned, rfind_char, starts_with, str_equals};

verus! {

/// What the compiler is asked to do, read from its command line.
#[derive(Debug)]
pub struct CompileOptions {
    pub input_files: Vec<String>,
    pub async_enabled: bool,
    pub emit_mir: bool,
    pub emit_llvm: bool,
    pub target_wasm: bool,
    pub compile_only: bool,
    pub unsafe_arrays: bool,
    pub output_name: Option<String>,
}

#[derive(Debug)]
pub enum Command {
    Help,
    Version,
    Compile(CompileOptions),
}

/// A command line the compiler refuses.
#[derive(Debug)]
pub enum ArgError {
    /// `-o`/`--output` without a file name after it.
    MissingOutputArgument,
    /// An option starting with `--` that the compiler does not know.
    UnknownOption(String),
    /// No input file given.
    NoInputFiles,
}

pub struct SpecOptions {
    pub inputs: Seq<Seq<char>>,
    pub async_enabled: bool,
    pub emit_mir: bool,
    pub emit_llvm: bool,
    pub target_wasm: bool,
    pub compile_only: bool,
    pub unsafe_arrays: bool,
    pub output: Option<Seq<char>>,
}

pub enum SpecOutcome {
    Help,
    Version,
    Compile(SpecOptions),
    MissingOutput,
    Unknown(Seq<char>),
    NoInputs,
}

/// The settings before any option is read.
pub open spec fn default_options() -> SpecOptions {
    SpecOptions {
        inputs: seq![],
        async_enabled: true,
        emit_mir: false,
        emit_llvm: true,
        target_wasm: false,
        compile_only: false,
        unsafe_arrays: false,
        output: None,
    }
}

/// Reads the arguments from index `i` on, left to right, with settings `o` so far.
/// `-h` and `-v` end the reading at once; so does the first refused argument.
pub open spec fn scan_args(args: Seq<Seq<char>>, i: int, o: SpecOptions) -> SpecOutcome
    decreases args.len() - i,
{
    if i < 0 || i >= args.len() {
        if o.inputs.len() == 0 { SpecOutcome::NoInputs } else { SpecOutcome::Compile(o) }
    } else {
        let a = args[i];
        if a == "-h"@ || a == "--help"@ {
            SpecOutcome::Help
        } else if a == "-v"@ || a == "--version"@ {
            SpecOutcome::Version
        } else if a == "--disable-async"@ {
            scan_args(args, i + 1, SpecOptions { async_enabled: false, ..o })
        } else if a == "--unsafe-arrays"@ {
            scan_args(args, i + 1, SpecOptions { unsafe_arrays: true, ..o })
        } else if a == "--emit-mir"@ {
            scan_args(args, i + 1, SpecOptions { emit_mir: true, ..o })
        } else if a == "--emit-llvm"@ {
            scan_args(args, i + 1, SpecOptions { emit_llvm: true, ..o })
        } else if a == "-c"@ || a == "--compile"@ {
            scan_args(args, i + 1, SpecOptions { compile_only: true, ..o })
        } else if a == "-o"@ || a == "--output"@ {
            if i + 1 < args.len() {
                scan_args(args, i + 2, SpecOptions { output: Some(args[i + 1]), ..o })
            } else {
                SpecOutcome::MissingOutput
            }
        } else if a == "--target"@ {
            if i + 1 < args.len() {
                scan_args(args, i + 2, SpecOptions { target_wasm: o.target_wasm || args[i + 1] == "wasm"@, ..o })
            } else {
                scan_args(args, i + 1, o)
            }
        } else if "--target="@.is_prefix_of(a) {
            let ends_wasm = "wasm"@.len() <= a.len() && a.subrange(a.len() - "wasm"@.len(), a.len() as int) == "wasm"@;
            scan_args(args, i + 1, SpecOptions { target_wasm: o.target_wasm || ends_wasm, ..o })
        } else if "--"@.is_prefix_of(a) {
            SpecOutcome::Unknown(a)
        } else {
            scan_args(args, i + 1, SpecOptions { inputs: o.inputs.push(a), ..o })
        }
    }
}

/// The short form of a long option that has one: `--help` `-h`, `--version` `-v`,
/// `--compile` `-c`, `--output` `-o`.
pub open spec fn short_form(a: Seq<char>) -> Option<Seq<char>> {
    if a == "--help"@ {
        Some("-h"@)
    } else if a == "--version"@ {
        Some("-v"@)
    } else if a == "--compile"@ {
        Some("-c"@)
    } else if a == "--output"@ {
        Some("-o"@)
    } else {
        None
    }
}

/// The options the compiler knows by their whole text.
pub open spec fn known_option(a: Seq<char>) -> bool {
    ||| a == "-h"@ || a == "--help"@
    ||| a == "-v"@ || a == "--version"@
    ||| a == "-c"@ || a == "--compile"@
    ||| a == "-o"@ || a == "--output"@
    ||| a == "--disable-async"@ || a == "--unsafe-arrays"@ || a == "--emit-mir"@ || a == "--emit-llvm"@
    ||| a == "--target"@
}

/// Reading from `j` on looks only at the arguments from `j` on.
pub proof fn lemma_scan_suffix(a: Seq<Seq<char>>, b: Seq<Seq<char>>, j: int, o: SpecOptions)
    requires
        a.len() == b.len(),
        forall|k: int| j <= k < a.len() ==> a[k] == b[k],
    ensures
        scan_args(a, j, o) == scan_args(b, j, o),
    decreases a.len() - j,
{
    if 0 <= j < a.len() {
        assert(a[j] == b[j]);
        if j + 1 < a.len() {
            assert(a[j + 1] == b[j + 1]);
        }
        let x = a[j];
        if x == "-h"@ || x == "--help"@ || x == "-v"@ || x == "--version"@ {
        } else if x == "--disable-async"@ {
            lemma_scan_suffix(a, b, j + 1, SpecOptions { async_enabled: false, ..o });
        } else if x == "--unsafe-arrays"@ {
            lemma_scan_suffix(a, b, j + 1, SpecOptions { unsafe_arrays: true, ..o });
        } else if x == "--emit-mir"@ {
            lemma_scan_suffix(a, b, j + 1, SpecOptions { emit_mir: true, ..o });
        } else if x == "--emit-llvm"@ {
            lemma_scan_suffix(a, b, j + 1, SpecOptions { emit_llvm: true, ..o });
        } else if x == "-c"@ || x == "--compile"@ {
            lemma_scan_suffix(a, b, j + 1, SpecOptions { compile_only: true, ..o });
        } else if x == "-o"@ || x == "--output"@ {
            if j + 1 < a.len() {
                lemma_scan_suffix(a, b, j + 2, SpecOptions { output: Some(a[j + 1]), ..o });
            }
        } else if x == "--target"@ {
            if j + 1 < a.len() {
                lemma_scan_suffix(a, b, j + 2, SpecOptions { target_wasm: o.target_wasm || a[j + 1] == "wasm"@, ..o });
            } else {
                lemma_scan_suffix(a, b, j + 1, o);
            }
        } else if "--target="@.is_prefix_of(x) {
            let ends_wasm = "wasm"@.len() <= x.len() && x.subrange(x.len() - "wasm"@.len(), x.len() as int) == "wasm"@;
            lemma_scan_suffix(a, b, j + 1, SpecOptions { target_wasm: o.target_wasm || ends_wasm, ..o });
        } else if "--"@.is_prefix_of(x) {
        } else {
            lemma_scan_suffix(a, b, j + 1, SpecOptions { inputs: o.inputs.push(x), ..o });
        }
    }
}

/// The lengths and leading characters of the option texts, which tell them apart.
proof fn lemma_option_texts()
    ensures
        "-h"@.len() == 2 && "-h"@[0] == '-' && "-h"@[1] == 'h',
        "--help"@.len() == 6 && "--help"@[0] == '-' && "--help"@[1] == '-' && "--help"@[2] == 'h',
        "-v"@.len() == 2 && "-v"@[0] == '-' && "-v"@[1] == 'v',
        "--version"@.len() == 9 && "--version"@[0] == '-' && "--version"@[1] == '-' && "--version"@[2] == 'v',
        "-c"@.len() == 2 && "-c"@[0] == '-' && "-c"@[1] == 'c',
        "--compile"@.len() == 9 && "--compile"@[0] == '-' && "--compile"@[1] == '-' && "--compile"@[2] == 'c',
        "-o"@.len() == 2 && "-o"@[0] == '-' && "-o"@[1] == 'o',
        "--output"@.len() == 8 && "--output"@[0] == '-' && "--output"@[1] == '-' && "--output"@[2] == 'o',
        "--disable-async"@.len() == 15 && "--disable-async"@[0] == '-' && "--disable-async"@[1] == '-' && "--disable-async"@[2] == 'd',
        "--unsafe-arrays"@.len() == 15 && "--unsafe-arrays"@[0] == '-' && "--unsafe-arrays"@[1] == '-' && "--unsafe-arrays"@[2] == 'u',
        "--emit-mir"@.len() == 10 && "--emit-mir"@[0] == '-' && "--emit-mir"@[1] == '-' && "--emit-mir"@[2] == 'e',
        "--emit-llvm"@.len() == 11 && "--emit-llvm"@[0] == '-' && "--emit-llvm"@[1] == '-' && "--emit-llvm"@[2] == 'e',
        "--target"@.len() == 8 && "--target"@[0] == '-' && "--target"@[1] == '-' && "--target"@[2] == 't',
{
    reveal_strlit("-h");
    reveal_strlit("--help");
    reveal_strlit("-v");
    reveal_strlit("--version");
    reveal_strlit("-c");
    reveal_strlit("--compile");
    reveal_strlit("-o");
    reveal_strlit("--output");
    reveal_strlit("--disable-async");
    reveal_strlit("--unsafe-arrays");
    reveal_strlit("--emit-mir");
    reveal_strlit("--emit-llvm");
    reveal_strlit("--target");
}

/// Each long option that has a short form does what the short form does, wherever
/// the reading meets it: `--output NAME` names the output as `-o NAME` does,
/// `--help`, `--version` and `--compile` act as `-h`, `-v` and `-c`.
pub proof fn law_long_option_is_short(args: Seq<Seq<char>>, i: int, o: SpecOptions)
    requires
        0 <= i < args.len(),
        short_form(args[i]) is Some,
    ensures
        scan_args(args, i, o) == scan_args(args.update(i, short_form(args[i]).unwrap()), i, o),
{
    lemma_option_texts();
    let b = args.update(i, short_form(args[i]).unwrap());
    assert(b[i] == short_form(args[i]).unwrap());
    if i + 1 < args.len() {
        assert(args[i + 1] == b[i + 1]);
        lemma_scan_suffix(args, b, i + 2, SpecOptions { output: Some(args[i + 1]), ..o });
    }
    lemma_scan_suffix(args, b, i + 1, SpecOptions { compile_only: true, ..o });
}

/// What one argument does, wherever the reading meets it: `-h` and `-v` answer with
/// help and the version; `--disable-async` turns async off and `--unsafe-arrays`,
/// `--emit-mir`, `--emit-llvm` and `-c` turn their settings on, the reading going on
/// with the next argument; `-o NAME` names the output and the reading goes on after
/// `NAME`, and `-o` last is refused; an argument that does not start with `-` is an
/// input file, kept after those before it.
pub proof fn law_argument_effects(args: Seq<Seq<char>>, i: int, o: SpecOptions)
    requires
        0 <= i < args.len(),
    ensures
        args[i] == "-h"@ ==> scan_args(args, i, o) == SpecOutcome::Help,
        args[i] == "-v"@ ==> scan_args(args, i, o) == SpecOutcome::Version,
        args[i] == "--disable-async"@ ==> scan_args(args, i, o) == scan_args(args, i + 1, SpecOptions { async_enabled: false, ..o }),
        args[i] == "--unsafe-arrays"@ ==> scan_args(args, i, o) == scan_args(args, i + 1, SpecOptions { unsafe_arrays: true, ..o }),
        args[i] == "--emit-mir"@ ==> scan_args(args, i, o) == scan_args(args, i + 1, SpecOptions { emit_mir: true, ..o }),
        args[i] == "--emit-llvm"@ ==> scan_args(args, i, o) == scan_args(args, i + 1, SpecOptions { emit_llvm: true, ..o }),
        args[i] == "-c"@ ==> scan_args(args, i, o) == scan_args(args, i + 1, SpecOptions { compile_only: true, ..o }),
        args[i] == "-o"@ && i + 1 < args.len() ==> scan_args(args, i, o) == scan_args(args, i + 2, SpecOptions {
            output: Some(args[i + 1]),
            ..o
        }),
        args[i] == "-o"@ && i + 1 == args.len() ==> scan_args(args, i, o) == SpecOutcome::MissingOutput,
        args[i].len() == 0 || args[i][0] != '-' ==> scan_args(args, i, o) == scan_args(args, i + 1, SpecOptions {
            inputs: o.inputs.push(args[i]),
            ..o
        }),
{
    lemma_option_texts();
    reveal_strlit("--target=");
    reveal_strlit("--");
    if args[i].len() == 0 || args[i][0] != '-' {
        assert("--"@[0] == '-' && "--target="@[0] == '-');
        if "--target="@.is_prefix_of(args[i]) {
            assert(args[i].subrange(0, "--target="@.len() as int)[0] == args[i][0]);
        }
        if "--"@.is_prefix_of(args[i]) {
            assert(args[i].subrange(0, 2)[0] == args[i][0]);
        }
    }
}

/// An argument refused as an unknown option starts with `--` and is none of the
/// options the compiler knows.
pub proof fn law_unknown_is_not_an_option(args: Seq<Seq<char>>, i: int, o: SpecOptions)
    ensures
        scan_args(args, i, o) matches SpecOutcome::Unknown(a) ==> "--"@.is_prefix_of(a) && !known_option(a),
    decreases args.len() - i,
{
    if 0 <= i < args.len() {
        let x = args[i];
        if x == "-h"@ || x == "--help"@ || x == "-v"@ || x == "--version"@ {
        } else if x == "--disable-async"@ {
            law_unknown_is_not_an_option(args, i + 1, SpecOptions { async_enabled: false, ..o });
        } else if x == "--unsafe-arrays"@ {
            law_unknown_is_not_an_option(args, i + 1, SpecOptions { unsafe_arrays: true, ..o });
        } else if x == "--emit-mir"@ {
            law_unknown_is_not_an_option(args, i + 1, SpecOptions { emit_mir: true, ..o });
        } else if x == "--emit-llvm"@ {
            law_unknown_is_not_an_option(args, i + 1, SpecOptions { emit_llvm: true, ..o });
        } else if x == "-c"@ || x == "--compile"@ {
            law_unknown_is_not_an_option(args, i + 1, SpecOptions { compile_only: true, ..o });
        } else if x == "-o"@ || x == "--output"@ {
            if i + 1 < args.len() {
                law_unknown_is_not_an_option(args, i + 2, SpecOptions { output: Some(args[i + 1]), ..o });
            }
        } else if x == "--target"@ {
            if i + 1 < args.len() {
                law_unknown_is_not_an_option(args, i + 2, SpecOptions {
                    target_wasm: o.target_wasm || args[i + 1] == "wasm"@,
                    ..o
                });
            } else {
                law_unknown_is_not_an_option(args, i + 1, o);
            }
        } else if "--target="@.is_prefix_of(x) {
            let ends_wasm = "wasm"@.len() <= x.len() && x.subrange(x.len() - "wasm"@.len(), x.len() as int) == "wasm"@;
            law_unknown_is_not_an_option(args, i + 1, SpecOptions { target_wasm: o.target_wasm || ends_wasm, ..o });
        } else if "--"@.is_prefix_of(x) {
        } else {
            law_unknown_is_not_an_option(args, i + 1, SpecOptions { inputs: o.inputs.push(x), ..o });
        }
    }
}

/// The settings of `c` are those of `o`.
pub open spec fn options_are(c: CompileOptions, o: SpecOptions) -> bool {
    &&& c.input_files@.map_values(|f: String| f@) == o.inputs
    &&& c.async_enabled == o.async_enabled
    &&& c.emit_mir == o.emit_mir
    &&& c.emit_llvm == o.emit_llvm
    &&& c.target_wasm == o.target_wasm
    &&& c.compile_only == o.compile_only
    &&& c.unsafe_arrays == o.unsafe_arrays
    &&& match (c.output_name, o.output) {
        (Some(a), Some(b)) => a@ == b,
        (None, None) => true,
        _ => false,
    }
}

/// `r` is what `outcome` describes.
pub open spec fn result_is(r: Result<Command, ArgError>, outcome: SpecOutcome) -> bool {
    match outcome {
        SpecOutcome::Help => r matches Ok(Command::Help),
        SpecOutcome::Version => r matches Ok(Command::Version),
        SpecOutcome::Compile(o) => r matches Ok(Command::Compile(c)) && options_are(c, o),
        SpecOutcome::MissingOutput => r matches Err(ArgError::MissingOutputArgument),
        SpecOutcome::Unknown(a) => r matches Err(ArgError::UnknownOption(s)) && s@ == a,
        SpecOutcome::NoInputs => r matches Err(ArgError::NoInputFiles),
    }
}

/// Reads the command line; `args[0]` is the program's own name.
pub fn parse_args(args: &Vec<String>) -> (r: Result<Command, ArgError>)
    ensures
        result_is(r, scan_args(args@.map_values(|a: String| a@), 1, default_options())),
        r matches Err(ArgError::UnknownOption(u)) ==> "--"@.is_prefix_of(u@) && !known_option(u@),
{
    proof {
        law_unknown_is_not_an_option(args@.map_values(|a: String| a@), 1, default_options());
    }
    let ghost all = args@.map_values(|a: String| a@);
    let mut input_files: Vec<String> = Vec::new();
    let mut async_enabled = true;
    let mut emit_mir = false;
    let mut emit_llvm = true;
    let mut target_wasm = false;
    let mut compile_only = false;
    let mut unsafe_arrays = false;
    let mut output_name: Option<String> = None;
    let mut i: usize = 1;
    assert(input_files@.map_values(|f: String| f@) =~= Seq::<Seq<char>>::empty());
    while i < args.len()
        invariant
            all == args@.map_values(|a: String| a@),
            1 <= i,
            scan_args(all, 1, default_options()) == scan_args(all, i as int, SpecOptions {
                inputs: input_files@.map_values(|f: String| f@),
                async_enabled,
                emit_mir,
                emit_llvm,
                target_wasm,
                compile_only,
                unsafe_arrays,
                output: match output_name { Some(s) => Some(s@), None => None },
            }),
        decreases args.len() - i,
    {
        let arg = args[i].as_str();
        assert(all[i as int] == arg@);
        if str_equals(arg, "-h") || str_equals(arg, "--help") {
            return Ok(Command::Help);
        } else if str_equals(arg, "-v") || str_equals(arg, "--version") {
            return Ok(Command::Version);
        } else if str_equals(arg, "--disable-async") {
            async_enabled = false;
        } else if str_equals(arg, "--unsafe-arrays") {
            unsafe_arrays = true;
        } else if str_equals(arg, "--emit-mir") {
            emit_mir = true;
        } else if str_equals(arg, "--emit-llvm") {
            emit_llvm = true;
        } else if str_equals(arg, "-c") || str_equals(arg, "--compile") {
            compile_only = true;
        } else if str_equals(arg, "-o") || str_equals(arg, "--output") {
            if i + 1 < args.len() {
                output_name = Some(args[i + 1].clone());
                i = i + 1;
            } else {
                return Err(ArgError::MissingOutputArgument);
            }
        } else if str_equals(arg, "--target") {
            if i + 1 < args.len() {
                if str_equals(args[i + 1].as_str(), "wasm") {
                    target_wasm = true;
                }
                i = i + 1;
            }
        } else if starts_with(arg, "--target=") {
            if ends_with(arg, "wasm") {
                target_wasm = true;
            }
        } else if starts_with(arg, "--") {
            return Err(ArgError::UnknownOption(owned(arg)));
        } else {
            let ghost before = input_files@.map_values(|f: String| f@);
            input_files.push(owned(arg));
            assert(input_files@.map_values(|f: String| f@) =~= before.push(arg@));
        }
        i = i + 1;
    }
    if input_files.len() == 0 {
        return Err(ArgError::NoInputFiles);
    }
    Ok(Command::Compile(CompileOptions {
        input_files,
        async_enabled,
        emit_mir,
        emit_llvm,
        target_wasm,
        compile_only,
        unsafe_arrays,
        output_name,
    }))
}

/// `name` with the text from its last `.` on replaced by `ext`; `fallback` when it has no `.`.
pub open spec fn replace_extension(name: Seq<char>, ext: Seq<char>, fallback: Seq<char>) -> Seq<char> {
    match last_index_of(name, '.') {
        Some(pos) => name.subrange(0, pos) + ext,
        None => fallback,
    }
}

/// The file a WebAssembly build is written to: the input's name with `.wasm` for its
/// extension, or `a.wasm`.
pub fn wasm_output_name(filename: &str) -> (r: String)
    ensures
        r@ == replace_extension(filename@, ".wasm"@, "a.wasm"@),
{
    match rfind_char(filename, '.') {
        Some(pos) => {
            let mut name = owned(filename.substring_char(0, pos));
            name.append(".wasm");
            name
        },
        None => owned("a.wasm"),
    }
}

/// The executable's name: the one given with `-o`, else the input's name without its
/// extension, or `a.out`.
pub fn native_output_name(filename: &str, output_name: &Option<String>) -> (r: String)
    ensures
        output_name matches Some(o) ==> r@ == o@,
        output_name is None ==> r@ == replace_extension(filename@, seq![], "a.out"@),
{
    match output_name {
        Some(o) => o.clone(),
        None => match rfind_char(filename, '.') {
            Some(pos) => {
                let name = owned(filename.substring_char(0, pos));
                assert(name@ =~= filename@.subrange(0, pos as int) + seq![]);
                name
            },
            None => owned("a.out"),
        },
    }
}

/// The LLVM IR file written next to the output: its name with `.ll` added.
pub fn llvm_ir_file_name(output_name: &str) -> (r: String)
    ensures
        r@ == output_name@ + ".ll"@,
{
    let mut name = owned(output_name);
    name.append(".ll");
    name
}

} // verus!
