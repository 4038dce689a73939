//! The end-to-end pipeline over an in-memory source: lex, parse,
//! compile, run.  Reading the file and printing belong to the host
//! around the library.
//!
//! An error names its stage: a message opening with `Parse error`
//! carries the first parser diagnostic, `Compile error: ` a failed
//! validation, `Runtime error: ` a machine fault.  On success the
//! machine handed back has halted with a result value.

use crate::library::compiler::{compile_program, imports_first, module_views, nodes_ok, program_ok};
use crate::library::heap::Value;
use crate::library::lexer::{stream_ok, Lexer};
use crate::library::parser::Parser;
use crate::library::vm::{nil_halt_start, VirtualMachine};
use vstd::prelude::*;
use vstd::string::{StrSliceExecFns, StringExecFns};

verus! {

/// The file name ends in `.n`.
pub fn has_n_extension(filename: &str) -> (r: bool)
    requires
        filename@.len() < usize::MAX,
    ensures
        r == (filename@.len() >= 2 && filename@[filename@.len() - 2] == '.'
            && filename@[filename@.len() - 1] == 'n'),
{
    let n = filename.unicode_len();
    if n < 2 {
        return false;
    }
    filename.get_char(n - 2) == '.' && filename.get_char(n - 1) == 'n'
}

/// Lex, parse, compile and execute, handing back the halted machine
/// for its result and output.  An error message opens with its
/// stage's tag.
pub fn run_source_vm(source: &str) -> (r: Result<VirtualMachine, String>)
    requires
        source@.len() < usize::MAX,
    ensures
        r matches Ok(vm) ==> vm.wf() && vm.spec_halted() && vm.spec_result() is Some,
        r matches Err(m) ==> ("Parse error"@.is_prefix_of(m@) || "Compile error: "@.is_prefix_of(
            m@,
        ) || "Runtime error: "@.is_prefix_of(m@)),
        source@.len() == 0 ==> (r matches Ok(vm) && vm.spec_result() == Some(Value::Nil)),
{
    let lexer = Lexer::new(source);
    let ghost src_chars = lexer.chars();
    let mut parser = Parser::new(lexer);
    proof {
        if source@.len() == 0 {
            let ps = choose|ps: Seq<int>|
                ps.len() > 0 && ps[0] == 0 && stream_ok(src_chars, ps, parser.toks());
            if parser.toks().len() >= 2 {
                assert(ps[0] < ps[1] <= src_chars.len());
            }
            assert(parser.toks().len() == 1);
        }
    }
    let program = parser.parse_program();
    proof {
        if source@.len() == 0 {
            assert(!parser.had_error);
            assert(program.nodes@.len() == 0);
            assert(imports_first(program.nodes@));
            assert(nodes_ok(program.nodes@, module_views(program.nodes@)));
            assert(program_ok(program));
        }
    }
    if parser.had_error {
        let mut m = String::from_str("Parse error");
        if parser.diagnostics.len() > 0 {
            m.append(": ");
            m.append(parser.diagnostics[0].as_str());
        }
        proof {
            assert("Parse error"@.is_prefix_of(m@)) by {
                assert(m@.take("Parse error"@.len() as int) =~= "Parse error"@);
            }
        }
        return Err(m);
    }
    let bytecode = match compile_program(program) {
        Ok(bp) => bp,
        Err(e) => {
            let mut m = String::from_str("Compile error: ");
            m.append(e.as_str());
            proof {
                assert("Compile error: "@.is_prefix_of(m@)) by {
                    assert(m@.take("Compile error: "@.len() as int) =~= "Compile error: "@);
                }
            }
            return Err(m);
        },
    };
    let mut vm = VirtualMachine::new(bytecode);
    proof {
        if source@.len() == 0 {
            assert(nil_halt_start(vm));
        }
    }
    match vm.run() {
        Ok(()) => Ok(vm),
        Err(e) => {
            let mut m = String::from_str("Runtime error: ");
            m.append(e.as_str());
            proof {
                assert("Runtime error: "@.is_prefix_of(m@)) by {
                    assert(m@.take("Runtime error: "@.len() as int) =~= "Runtime error: "@);
                }
            }
            Err(m)
        },
    }
}

/// Lex, parse, compile and execute one source text: the fixed success
/// message, or the failing stage's tagged message.
pub fn run_source(source: &str) -> (r: Result<String, String>)
    requires
        source@.len() < usize::MAX,
    ensures
        r matches Ok(m) ==> m@ == "Program executed successfully"@,
        r matches Err(m) ==> ("Parse error"@.is_prefix_of(m@) || "Compile error: "@.is_prefix_of(
            m@,
        ) || "Runtime error: "@.is_prefix_of(m@)),
        source@.len() == 0 ==> (r matches Ok(m) && m@ == "Program executed successfully"@),
{
    match run_source_vm(source) {
        Ok(_) => Ok(String::from_str("Program executed successfully")),
        Err(m) => Err(m),
    }
}

} // verus!
