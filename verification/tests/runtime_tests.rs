use mirrow::library::fmt::u64_to_string;
use mirrow::library::heap::{Heap, HeapObject, Value};
use mirrow::library::number::Rational;
use mirrow::library::vm::VirtualMachine;
use mirrow::runtime::{has_n_extension, run_source, run_source_vm};

fn run_vm(source: &str) -> VirtualMachine {
    run_source_vm(source).expect("program should run")
}

fn run_err(source: &str) -> String {
    match run_source_vm(source) {
        Ok(_) => panic!("program should fail"),
        Err(e) => e,
    }
}

#[test]
fn test_arithmetic_result_is_seven() {
    let vm = run_vm("1 + 2 * 3");
    let q = vm.result_number().unwrap();
    assert_eq!(q.numerator(), 7);
    assert_eq!(q.denominator(), 1);
}

#[test]
fn test_pipeline_applies_function() {
    let vm = run_vm("func inc(x) { x + 1 }\n5 |> inc");
    let q = vm.result_number().unwrap();
    assert_eq!(q.numerator(), 6);
    assert_eq!(q.denominator(), 1);
}

#[test]
fn test_pipeline_prepends_argument() {
    let vm = run_vm("func add(a, b) { a + b }\n5 |> add(10)");
    let q = vm.result_number().unwrap();
    assert_eq!(q.numerator(), 15);
}

#[test]
fn test_struct_index_yields_field() {
    let vm = run_vm("let p = { name = \"John\", age = 30 } ; p[\"name\"]");
    assert_eq!(vm.result_string().unwrap(), "John");
}

#[test]
fn test_match_with_wildcard() {
    let vm = run_vm("match 3 { 1 -> \"one\", 2 -> \"two\", _ -> \"other\" }");
    assert_eq!(vm.result_string().unwrap(), "other");
}

#[test]
fn test_match_first_arm_wins() {
    let vm = run_vm("match 1 { 1 -> \"first\", 1 -> \"second\" }");
    assert_eq!(vm.result_string().unwrap(), "first");
}

#[test]
fn test_match_binds_struct_fields() {
    let vm = run_vm("match { name = \"Ada\", age = 36 } { { name } -> name }");
    assert_eq!(vm.result_string().unwrap(), "Ada");
}

#[test]
fn test_match_number_equality_is_by_value() {
    let vm = run_vm("match 0.5 { 0.50 -> \"same\", _ -> \"different\" }");
    assert_eq!(vm.result_string().unwrap(), "same");
}

#[test]
fn test_exact_fraction_arithmetic() {
    let vm = run_vm("1 / 3 + 1 / 6");
    let q = vm.result_number().unwrap();
    assert_eq!(q.numerator(), 1);
    assert_eq!(q.denominator(), 2);
}

#[test]
fn test_if_else_takes_else_branch() {
    let vm = run_vm("if false { 1 } else { 2 }");
    assert_eq!(vm.result_number().unwrap().numerator(), 2);
}

#[test]
fn test_comparison_yields_bool() {
    let vm = run_vm("1 < 2");
    assert_eq!(vm.result_bool().unwrap(), true);
    let vm2 = run_vm("2 <= 1");
    assert_eq!(vm2.result_bool().unwrap(), false);
}

#[test]
fn test_string_concatenation() {
    let vm = run_vm("\"con\" + \"cat\"");
    assert_eq!(vm.result_string().unwrap(), "concat");
}

#[test]
fn test_array_literal_and_index() {
    let vm = run_vm("let a = [10, 20, 30] ; a[1]");
    assert_eq!(vm.result_number().unwrap().numerator(), 20);
}

#[test]
fn test_array_append_and_index() {
    let vm = run_vm("let a = [1] ; a <- 2 ; a[1]");
    assert_eq!(vm.result_number().unwrap().numerator(), 2);
}

#[test]
fn test_negation_and_not() {
    let vm = run_vm("-(2 + 3)");
    assert_eq!(vm.result_number().unwrap().numerator(), -5);
    let vm2 = run_vm("!false");
    assert_eq!(vm2.result_bool().unwrap(), true);
}

#[test]
fn test_io_print_collects_output() {
    let vm = run_vm("import \"IO\"\nIO.print(42)");
    assert_eq!(vm.output_lines().len(), 1);
    assert_eq!(vm.output_lines()[0], "42");
}

#[test]
fn test_division_by_zero_faults() {
    let e = run_err("1 / 0");
    assert!(e.contains("Division by zero"), "got: {}", e);
}

#[test]
fn test_undefined_variable_faults() {
    let e = run_err("missing + 1");
    assert!(e.contains("Undefined variable"), "got: {}", e);
}

#[test]
fn test_wrong_arity_faults() {
    let e = run_err("func f(a) { a }\nf(1, 2)");
    assert!(e.contains("Wrong arity"), "got: {}", e);
}

#[test]
fn test_missing_field_faults() {
    let e = run_err("let p = { a = 1 } ; p[\"b\"]");
    assert!(e.contains("Missing field"), "got: {}", e);
}

#[test]
fn test_no_matching_pattern_faults() {
    let e = run_err("match 3 { 1 -> 2 }");
    assert!(e.contains("No matching pattern"), "got: {}", e);
}

#[test]
fn test_unknown_module_member_faults() {
    let e = run_err("import \"IO\"\nIO.launch(1)");
    assert!(e.contains("Unknown module member"), "got: {}", e);
}

#[test]
fn test_calling_a_number_faults() {
    let e = run_err("let x = 1 ; x(2)");
    assert!(e.contains("Can only call functions"), "got: {}", e);
}

#[test]
fn test_run_source_reports_success() {
    let r = run_source("let x = 1");
    assert_eq!(r.unwrap(), "Program executed successfully");
}

#[test]
fn test_run_source_reports_parse_error() {
    let r = run_source("let = 1");
    assert!(r.unwrap_err().contains("Parse error"));
}

#[test]
fn test_extension_check() {
    assert!(has_n_extension("main.n"));
    assert!(!has_n_extension("main.rs"));
    assert!(!has_n_extension("n"));
    assert!(!has_n_extension(""));
}

#[test]
fn test_decimal_rendering() {
    assert_eq!(u64_to_string(0), "0");
    assert_eq!(u64_to_string(7), "7");
    assert_eq!(u64_to_string(10), "10");
    assert_eq!(u64_to_string(12345), "12345");
    assert_eq!(u64_to_string(u64::MAX), "18446744073709551615");
}

#[test]
fn test_rational_reduction_and_equality() {
    let a = Rational::from_int(1);
    let b = Rational::from_int(3);
    let third = a.checked_div(&b).unwrap();
    let two_sixths = Rational::from_int(2).checked_div(&Rational::from_int(6)).unwrap();
    assert!(third.eq_value(&two_sixths));
    let sum = third.checked_add(&third).unwrap();
    let two_thirds = Rational::from_int(2).checked_div(&Rational::from_int(3)).unwrap();
    assert!(sum.eq_value(&two_thirds));
}

#[test]
fn test_gc_frees_unrooted_and_keeps_rooted() {
    let mut heap = Heap::new();
    let kept = heap.allocate(HeapObject::Text("kept".to_string()));
    let dropped = heap.allocate(HeapObject::Text("dropped".to_string()));
    let roots = vec![Value::Str(kept)];
    heap.collect(&roots);
    assert!(heap.get(kept).is_some());
    assert!(heap.get(dropped).is_none());
}

#[test]
fn test_gc_keeps_objects_reachable_through_arrays() {
    let mut heap = Heap::new();
    let inner = heap.allocate(HeapObject::Text("inner".to_string()));
    let arr = heap.allocate(HeapObject::Arr(vec![Value::Str(inner)]));
    let roots = vec![Value::Array(arr)];
    heap.collect(&roots);
    assert!(heap.get(inner).is_some());
    assert!(heap.get(arr).is_some());
}

#[test]
fn test_gc_collects_cycles() {
    let mut heap = Heap::new();
    let arr = heap.allocate(HeapObject::Arr(vec![]));
    assert!(heap.array_push(arr, Value::Array(arr)));
    let roots: Vec<Value> = vec![];
    heap.collect(&roots);
    assert!(heap.get(arr).is_none());
}

#[test]
fn test_gc_clears_marks_for_repeated_cycles() {
    let mut heap = Heap::new();
    let kept = heap.allocate(HeapObject::Text("kept".to_string()));
    let roots = vec![Value::Str(kept)];
    heap.collect(&roots);
    heap.collect(&roots);
    assert!(heap.get(kept).is_some());
}

#[test]
fn test_match_in_expression_position() {
    let vm = run_vm("let x = match 2 { 1 -> 10, 2 -> 20, _ -> 0 } ; x");
    assert_eq!(vm.result_number().unwrap().numerator(), 20);
}

#[test]
fn test_let_in_block_does_not_leak() {
    let e = run_err("if true { let x = 1 } ; x");
    assert!(e.contains("Undefined variable"), "got: {}", e);
}

#[test]
fn test_block_shadowing_keeps_outer_binding() {
    let vm = run_vm("let x = 1 ; if true { let x = 2 } ; x");
    assert_eq!(vm.result_number().unwrap().numerator(), 1);
}

#[test]
fn test_match_bindings_stay_in_their_arm() {
    let e = run_err("match { name = \"Ada\" } { { name } -> name } ; name");
    assert!(e.contains("Undefined variable"), "got: {}", e);
}

#[test]
fn test_forward_function_reference() {
    let vm = run_vm("func a() { b() }\nfunc b() { 7 }\na()");
    assert_eq!(vm.result_number().unwrap().numerator(), 7);
}

#[test]
fn test_recursive_function() {
    let vm = run_vm("func fact(n) { if n <= 1 { 1 } else { n * fact(n - 1) } }\nfact(5)");
    assert_eq!(vm.result_number().unwrap().numerator(), 120);
}

#[test]
fn test_empty_source_runs_to_nil() {
    let r = run_source("");
    assert_eq!(r.unwrap(), "Program executed successfully");
    let vm = run_vm("");
    assert!(matches!(vm.result_value(), Some(Value::Nil)));
}
