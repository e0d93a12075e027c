use crate::dsl::{
    data_types_ready, functions_ready, registered_as, standard_data_types, standard_functions,
    standard_registered, standard_type_registered,
};
use crate::dsl::framework::{
    DSL, DslError, Element, ElementType, ElementV, EntryV, FunctionMetadata, OptionValue, OutputV,
    Result, element_fits, first_named, type_accepts,
};
use crate::dsl::runner::{
    call_spec, declared_type, generator_body_spec, generator_spec, inputs_check_from,
    lemma_first_named_unique, outputs_match,
};
use crate::dsl::values::{
    reformat_qm31_to_dsl_element,
    cm31_elem, cm31_of_elem, i32_limbs, lemma_i32_limbs_valid, m31_of, qm31_elem, qm31_of_elem,
    valid_cm31_elem, valid_m31_value, valid_qm31_elem,
};
use crate::field::cm31::{
    CM31, cm31_add, cm31_add_m31, cm31_inverse_with, cm31_mul, cm31_mul_m31, cm31_neg, cm31_norm,
    cm31_sub, cm31_zero,
};
use crate::dsl::building_blocks::m31::{mul_quotient, quotient_entry};
use crate::dsl::building_blocks::cm31::{cm31_mul_quotients, lemma_cm31_mul_quotients_len};
use crate::dsl::building_blocks::qm31::{lemma_qm31_mul_quotients_len, qm31_mul_quotients};
use crate::field::squares::{lemma_cm31_norm_zero, lemma_qm31_invertible_iff_nonzero};
use crate::field::m31::{M31, P, add_m, inv_m, mul_m, neg_m, sub_m};
use crate::field::qm31::{
    QM31, qm31_add, qm31_add_m31, qm31_from, qm31_inverse, qm31_invertible, qm31_mul, qm31_mul_cm31,
    qm31_mul_m31, qm31_neg, qm31_one, qm31_sub,
};
use crate::limbs::{
    cm31_limbs, cm31_of_limbs, convert_m31_to_limbs, lemma_limbs_roundtrip, limbs_value, m31_limbs,
    qm31_limbs, qm31_of_limbs, valid_cm31_limbs, valid_m31_limbs, valid_qm31_limbs,
};
use vstd::prelude::*;

verus! {

/// What calling standard function `k` gives, once it is registered.
pub open spec fn standard_call(
    k: int,
    mem: Seq<EntryV>,
    inputs: Seq<usize>,
    opts: Seq<(String, OptionValue)>,
) -> Result<OutputV> {
    let f = standard_functions()[k];
    if inputs.len() != f.2.len() {
        Err(DslError::WrongNumberOfInputs)
    } else {
        match inputs_check_from(mem, inputs, f.2, 0) {
            Err(e) => Err(e),
            Ok(_) => match generator_spec(f.1, mem, inputs, opts) {
                Err(e) => Err(e),
                Ok(o) => if outputs_match(o.0, f.3) {
                    Ok(o)
                } else {
                    Err(DslError::TypeMismatch)
                },
            },
        }
    }
}

/// With the standard functions registered, calling one by its name is
/// calling it.
pub proof fn lemma_standard_call(
    functions: Seq<(String, FunctionMetadata)>,
    mem: Seq<EntryV>,
    k: int,
    inputs: Seq<usize>,
    opts: Seq<(String, OptionValue)>,
)
    requires
        functions_ready(functions),
        0 <= k < standard_functions().len(),
    ensures
        call_spec(functions, mem, standard_functions()[k].0, inputs, opts) == standard_call(
            k,
            mem,
            inputs,
            opts,
        ),
{
    reveal(functions_ready);
    let name = standard_functions()[k].0;
    assert(standard_registered(functions, k));
    let i = choose|i: int|
        first_named(functions, name, i) && registered_as(#[trigger] functions[i], standard_functions()[k]);
    assert(first_named(functions, name, i));
    let c = choose|i: int| first_named(functions, name, i);
    lemma_first_named_unique(functions, name, c, i);
}

/// Calls `name` and gives the index of its first new element.
pub(crate) fn call_one(dsl: &mut DSL, name: &str, inputs: &[usize]) -> (r: Result<usize>)
    ensures
        final(dsl).extends(old(dsl)),
        match call_spec(old(dsl).functions@, old(dsl).mem(), name@, inputs@, Seq::empty()) {
            Err(e) => r == Err::<usize, DslError>(e),
            Ok(o) => o.0.len() >= 1 ==> {
                &&& old(dsl).mem().len() < usize::MAX
                &&& r == Ok::<usize, DslError>(old(dsl).mem().len() as usize)
                &&& final(dsl).mem() == old(dsl).mem() + o.0
                &&& final(dsl).hint_v() == old(dsl).hint_v() + o.1
            },
        },
{
    let res = dsl.execute(name, inputs);
    let total = dsl.memory.len();
    assert(dsl.mem().len() == dsl.memory@.len());
    let idxs = res?;
    if idxs.len() == 0 {
        return Err(DslError::WrongElement);
    }
    Ok(idxs[0])
}

/// The numbers that an element holds, if it holds many.
pub open spec fn nums(e: ElementV) -> Seq<i32> {
    match e {
        ElementV::ManyNum(s) => s,
        _ => Seq::empty(),
    }
}

/// The number that an element holds, if it holds one.
pub open spec fn num(e: ElementV) -> i32 {
    match e {
        ElementV::Num(v) => v,
        _ => 0,
    }
}

/// Index `i` holds an entry of data type `t` with many numbers, `n` of them.
pub open spec fn many_shape_at(mem: Seq<EntryV>, i: usize, t: Seq<char>, n: nat) -> bool {
    &&& i < mem.len()
    &&& mem[i as int].0 == t
    &&& mem[i as int].1 is ManyNum
    &&& nums(mem[i as int].1).len() == n
}

/// Index `i` holds an entry of data type `t` with one number.
pub open spec fn num_shape_at(mem: Seq<EntryV>, i: usize, t: Seq<char>) -> bool {
    &&& i < mem.len()
    &&& mem[i as int].0 == t
    &&& mem[i as int].1 is Num
}

/// Index `i` holds the multiplication table (by its data type).
pub open spec fn table_at(mem: Seq<EntryV>, i: usize) -> bool {
    i < mem.len() && mem[i as int].0 == "table"@
}

/// Index `i` holds a degree-4 element.
pub open spec fn qm31_valid_at(mem: Seq<EntryV>, i: usize) -> bool {
    many_shape_at(mem, i, "qm31"@, 4) && valid_qm31_elem(nums(mem[i as int].1))
}

/// Index `i` holds a complex element.
pub open spec fn cm31_valid_at(mem: Seq<EntryV>, i: usize) -> bool {
    many_shape_at(mem, i, "cm31"@, 2) && valid_cm31_elem(nums(mem[i as int].1))
}

/// Index `i` holds a base field element.
pub open spec fn m31_valid_at(mem: Seq<EntryV>, i: usize) -> bool {
    num_shape_at(mem, i, "m31"@) && valid_m31_value(num(mem[i as int].1))
}

/// Index `i` holds the limbs of a base field element.
pub open spec fn m31_limbs_valid_at(mem: Seq<EntryV>, i: usize) -> bool {
    many_shape_at(mem, i, "m31_limbs"@, 4) && valid_m31_limbs(nums(mem[i as int].1))
}

/// Index `i` holds the limbs of a complex element.
pub open spec fn cm31_limbs_valid_at(mem: Seq<EntryV>, i: usize) -> bool {
    many_shape_at(mem, i, "cm31_limbs"@, 8) && valid_cm31_limbs(nums(mem[i as int].1))
}

/// Index `i` holds the limbs of a degree-4 element.
pub open spec fn qm31_limbs_valid_at(mem: Seq<EntryV>, i: usize) -> bool {
    many_shape_at(mem, i, "qm31_limbs"@, 16) && valid_qm31_limbs(nums(mem[i as int].1))
}

/// The degree-4 element at index `i`.
pub open spec fn qm31_value(mem: Seq<EntryV>, i: usize) -> QM31 {
    qm31_of_elem(nums(mem[i as int].1))
}

/// The complex element at index `i`.
pub open spec fn cm31_value(mem: Seq<EntryV>, i: usize) -> CM31 {
    cm31_of_elem(nums(mem[i as int].1))
}

/// The base field element at index `i`.
pub open spec fn m31_value(mem: Seq<EntryV>, i: usize) -> M31 {
    m31_of(num(mem[i as int].1))
}

/// The entry that holds the degree-4 element `q`.
pub open spec fn qm31_entry(q: QM31) -> EntryV {
    ("qm31"@, ElementV::ManyNum(qm31_elem(q)))
}

/// The entry that holds the complex element `c`.
pub open spec fn cm31_entry(c: CM31) -> EntryV {
    ("cm31"@, ElementV::ManyNum(cm31_elem(c)))
}

/// Leading `&` marks in the declared inputs of the standard functions.
proof fn lemma_declared_types()
    ensures
        declared_type("&table"@) == "table"@,
        declared_type("&qm31"@) == "qm31"@,
        declared_type("&cm31"@) == "cm31"@,
        declared_type("&qm31_limbs"@) == "qm31_limbs"@,
        declared_type("&cm31_limbs"@) == "cm31_limbs"@,
        declared_type("qm31"@) == "qm31"@,
        declared_type("cm31"@) == "cm31"@,
        declared_type("m31"@) == "m31"@,
        declared_type("m31_limbs"@) == "m31_limbs"@,
        declared_type("cm31_limbs"@) == "cm31_limbs"@,
        declared_type("qm31_limbs"@) == "qm31_limbs"@,
{
    reveal_strlit("&table");
    reveal_strlit("table");
    reveal_strlit("&qm31");
    reveal_strlit("qm31");
    reveal_strlit("&cm31");
    reveal_strlit("cm31");
    reveal_strlit("&qm31_limbs");
    reveal_strlit("qm31_limbs");
    reveal_strlit("&cm31_limbs");
    reveal_strlit("cm31_limbs");
    reveal_strlit("m31");
    reveal_strlit("m31_limbs");
    assert(declared_type("&table"@) =~= "table"@);
    assert(declared_type("&qm31"@) =~= "qm31"@);
    assert(declared_type("&cm31"@) =~= "cm31"@);
    assert(declared_type("&qm31_limbs"@) =~= "qm31_limbs"@);
    assert(declared_type("&cm31_limbs"@) =~= "cm31_limbs"@);
}

/// Adds the elements at `x` and `y`.
pub(crate) fn call_qm31_add(dsl: &mut DSL, x: usize, y: usize) -> (r: Result<usize>)
    ensures
        final(dsl).extends(old(dsl)),
        functions_ready(old(dsl).functions@) ==> (r is Ok <==> qm31_valid_at(old(dsl).mem(), x) && qm31_valid_at(old(dsl).mem(), y)),
        functions_ready(old(dsl).functions@) && r is Ok ==> {
            &&& old(dsl).mem().len() < usize::MAX
            &&& r == Ok::<usize, DslError>(old(dsl).mem().len() as usize)
            &&& final(dsl).mem() == old(dsl).mem().push(qm31_entry(qm31_add(qm31_value(old(dsl).mem(), x), qm31_value(old(dsl).mem(), y))))
            &&& final(dsl).hint_v() == old(dsl).hint_v()
        },
{
    let ghost mem = dsl.mem();
    let ghost functions = dsl.functions@;
    let args = [x, y];
    let r = call_one(dsl, "qm31_add", &args);
    proof {
        if functions_ready(functions) {
            assert(args@ == seq![x, y]);
            lemma_standard_call(functions, mem, 31, seq![x, y], Seq::empty());
            lemma_declared_types();
            reveal(generator_body_spec);
            reveal_with_fuel(inputs_check_from, 3);
        }
    }
    r
}

/// Subtracts the element at `y` from the one at `x`.
pub(crate) fn call_qm31_sub(dsl: &mut DSL, x: usize, y: usize) -> (r: Result<usize>)
    ensures
        final(dsl).extends(old(dsl)),
        functions_ready(old(dsl).functions@) ==> (r is Ok <==> qm31_valid_at(old(dsl).mem(), x) && qm31_valid_at(old(dsl).mem(), y)),
        functions_ready(old(dsl).functions@) && r is Ok ==> {
            &&& old(dsl).mem().len() < usize::MAX
            &&& r == Ok::<usize, DslError>(old(dsl).mem().len() as usize)
            &&& final(dsl).mem() == old(dsl).mem().push(qm31_entry(qm31_sub(qm31_value(old(dsl).mem(), x), qm31_value(old(dsl).mem(), y))))
            &&& final(dsl).hint_v() == old(dsl).hint_v()
        },
{
    let ghost mem = dsl.mem();
    let ghost functions = dsl.functions@;
    let args = [x, y];
    let r = call_one(dsl, "qm31_sub", &args);
    proof {
        if functions_ready(functions) {
            assert(args@ == seq![x, y]);
            lemma_standard_call(functions, mem, 32, seq![x, y], Seq::empty());
            lemma_declared_types();
            reveal(generator_body_spec);
            reveal_with_fuel(inputs_check_from, 3);
        }
    }
    r
}

/// Adds one to the element at `x`.
pub(crate) fn call_qm31_1add(dsl: &mut DSL, x: usize) -> (r: Result<usize>)
    ensures
        final(dsl).extends(old(dsl)),
        functions_ready(old(dsl).functions@) ==> (r is Ok <==> qm31_valid_at(old(dsl).mem(), x)),
        functions_ready(old(dsl).functions@) && r is Ok ==> {
            &&& old(dsl).mem().len() < usize::MAX
            &&& r == Ok::<usize, DslError>(old(dsl).mem().len() as usize)
            &&& final(dsl).mem() == old(dsl).mem().push(qm31_entry(qm31_add(qm31_value(old(dsl).mem(), x), qm31_one())))
            &&& final(dsl).hint_v() == old(dsl).hint_v()
        },
{
    let ghost mem = dsl.mem();
    let ghost functions = dsl.functions@;
    let args = [x];
    let r = call_one(dsl, "qm31_1add", &args);
    proof {
        if functions_ready(functions) {
            assert(args@ == seq![x]);
            lemma_standard_call(functions, mem, 28, seq![x], Seq::empty());
            lemma_declared_types();
            reveal(generator_body_spec);
            reveal_with_fuel(inputs_check_from, 2);
        }
    }
    r
}

/// Subtracts one from the element at `x`.
pub(crate) fn call_qm31_1sub(dsl: &mut DSL, x: usize) -> (r: Result<usize>)
    ensures
        final(dsl).extends(old(dsl)),
        functions_ready(old(dsl).functions@) ==> (r is Ok <==> qm31_valid_at(old(dsl).mem(), x)),
        functions_ready(old(dsl).functions@) && r is Ok ==> {
            &&& old(dsl).mem().len() < usize::MAX
            &&& r == Ok::<usize, DslError>(old(dsl).mem().len() as usize)
            &&& final(dsl).mem() == old(dsl).mem().push(qm31_entry(qm31_sub(qm31_value(old(dsl).mem(), x), qm31_one())))
            &&& final(dsl).hint_v() == old(dsl).hint_v()
        },
{
    let ghost mem = dsl.mem();
    let ghost functions = dsl.functions@;
    let args = [x];
    let r = call_one(dsl, "qm31_1sub", &args);
    proof {
        if functions_ready(functions) {
            assert(args@ == seq![x]);
            lemma_standard_call(functions, mem, 29, seq![x], Seq::empty());
            lemma_declared_types();
            reveal(generator_body_spec);
            reveal_with_fuel(inputs_check_from, 2);
        }
    }
    r
}

/// Negates the element at `x`.
pub(crate) fn call_qm31_neg(dsl: &mut DSL, x: usize) -> (r: Result<usize>)
    ensures
        final(dsl).extends(old(dsl)),
        functions_ready(old(dsl).functions@) ==> (r is Ok <==> qm31_valid_at(old(dsl).mem(), x)),
        functions_ready(old(dsl).functions@) && r is Ok ==> {
            &&& old(dsl).mem().len() < usize::MAX
            &&& r == Ok::<usize, DslError>(old(dsl).mem().len() as usize)
            &&& final(dsl).mem() == old(dsl).mem().push(qm31_entry(qm31_neg(qm31_value(old(dsl).mem(), x))))
            &&& final(dsl).hint_v() == old(dsl).hint_v()
        },
{
    let ghost mem = dsl.mem();
    let ghost functions = dsl.functions@;
    let args = [x];
    let r = call_one(dsl, "qm31_neg", &args);
    proof {
        if functions_ready(functions) {
            assert(args@ == seq![x]);
            lemma_standard_call(functions, mem, 30, seq![x], Seq::empty());
            lemma_declared_types();
            reveal(generator_body_spec);
            reveal_with_fuel(inputs_check_from, 2);
        }
    }
    r
}

/// Multiplies the element at `x` by `i`.
pub(crate) fn call_qm31_shift_by_i(dsl: &mut DSL, x: usize) -> (r: Result<usize>)
    ensures
        final(dsl).extends(old(dsl)),
        functions_ready(old(dsl).functions@) ==> (r is Ok <==> qm31_valid_at(old(dsl).mem(), x)),
        functions_ready(old(dsl).functions@) && r is Ok ==> {
            &&& old(dsl).mem().len() < usize::MAX
            &&& r == Ok::<usize, DslError>(old(dsl).mem().len() as usize)
            &&& final(dsl).mem() == old(dsl).mem().push(qm31_entry(qm31_mul(qm31_value(old(dsl).mem(), x), qm31_from(0, 1, 0, 0))))
            &&& final(dsl).hint_v() == old(dsl).hint_v()
        },
{
    let ghost mem = dsl.mem();
    let ghost functions = dsl.functions@;
    let args = [x];
    let r = call_one(dsl, "qm31_shift_by_i", &args);
    proof {
        if functions_ready(functions) {
            assert(args@ == seq![x]);
            lemma_standard_call(functions, mem, 36, seq![x], Seq::empty());
            lemma_declared_types();
            reveal(generator_body_spec);
            reveal_with_fuel(inputs_check_from, 2);
        }
    }
    r
}

/// Multiplies the element at `x` by `u`.
pub(crate) fn call_qm31_shift_by_j(dsl: &mut DSL, x: usize) -> (r: Result<usize>)
    ensures
        final(dsl).extends(old(dsl)),
        functions_ready(old(dsl).functions@) ==> (r is Ok <==> qm31_valid_at(old(dsl).mem(), x)),
        functions_ready(old(dsl).functions@) && r is Ok ==> {
            &&& old(dsl).mem().len() < usize::MAX
            &&& r == Ok::<usize, DslError>(old(dsl).mem().len() as usize)
            &&& final(dsl).mem() == old(dsl).mem().push(qm31_entry(qm31_mul(qm31_value(old(dsl).mem(), x), qm31_from(0, 0, 1, 0))))
            &&& final(dsl).hint_v() == old(dsl).hint_v()
        },
{
    let ghost mem = dsl.mem();
    let ghost functions = dsl.functions@;
    let args = [x];
    let r = call_one(dsl, "qm31_shift_by_j", &args);
    proof {
        if functions_ready(functions) {
            assert(args@ == seq![x]);
            lemma_standard_call(functions, mem, 37, seq![x], Seq::empty());
            lemma_declared_types();
            reveal(generator_body_spec);
            reveal_with_fuel(inputs_check_from, 2);
        }
    }
    r
}

/// Multiplies the element at `x` by `iu`.
pub(crate) fn call_qm31_shift_by_ij(dsl: &mut DSL, x: usize) -> (r: Result<usize>)
    ensures
        final(dsl).extends(old(dsl)),
        functions_ready(old(dsl).functions@) ==> (r is Ok <==> qm31_valid_at(old(dsl).mem(), x)),
        functions_ready(old(dsl).functions@) && r is Ok ==> {
            &&& old(dsl).mem().len() < usize::MAX
            &&& r == Ok::<usize, DslError>(old(dsl).mem().len() as usize)
            &&& final(dsl).mem() == old(dsl).mem().push(qm31_entry(qm31_mul(qm31_value(old(dsl).mem(), x), qm31_from(0, 0, 0, 1))))
            &&& final(dsl).hint_v() == old(dsl).hint_v()
        },
{
    let ghost mem = dsl.mem();
    let ghost functions = dsl.functions@;
    let args = [x];
    let r = call_one(dsl, "qm31_shift_by_ij", &args);
    proof {
        if functions_ready(functions) {
            assert(args@ == seq![x]);
            lemma_standard_call(functions, mem, 38, seq![x], Seq::empty());
            lemma_declared_types();
            reveal(generator_body_spec);
            reveal_with_fuel(inputs_check_from, 2);
        }
    }
    r
}

/// Splits the element at `x` into limbs.
pub(crate) fn call_qm31_to_limbs(dsl: &mut DSL, x: usize) -> (r: Result<usize>)
    ensures
        final(dsl).extends(old(dsl)),
        functions_ready(old(dsl).functions@) ==> (r is Ok <==> many_shape_at(old(dsl).mem(), x, "qm31"@, 4)),
        functions_ready(old(dsl).functions@) && r is Ok ==> {
            &&& old(dsl).mem().len() < usize::MAX
            &&& r == Ok::<usize, DslError>(old(dsl).mem().len() as usize)
            &&& final(dsl).mem() == old(dsl).mem().push(("qm31_limbs"@, ElementV::ManyNum(i32_limbs(nums(old(dsl).mem()[x as int].1)[3]) + i32_limbs(nums(old(dsl).mem()[x as int].1)[2]) + i32_limbs(nums(old(dsl).mem()[x as int].1)[1]) + i32_limbs(nums(old(dsl).mem()[x as int].1)[0]))))
            &&& final(dsl).hint_v() == old(dsl).hint_v().push(("qm31_limbs"@, ElementV::ManyNum(i32_limbs(nums(old(dsl).mem()[x as int].1)[3]) + i32_limbs(nums(old(dsl).mem()[x as int].1)[2]) + i32_limbs(nums(old(dsl).mem()[x as int].1)[1]) + i32_limbs(nums(old(dsl).mem()[x as int].1)[0]))))
        },
{
    let ghost mem = dsl.mem();
    let ghost functions = dsl.functions@;
    let args = [x];
    let r = call_one(dsl, "qm31_to_limbs", &args);
    proof {
        if functions_ready(functions) {
            assert(args@ == seq![x]);
            lemma_standard_call(functions, mem, 20, seq![x], Seq::empty());
            lemma_declared_types();
            reveal(generator_body_spec);
            reveal_with_fuel(inputs_check_from, 2);
        }
    }
    r
}

/// Multiplies the elements whose limbs are at `x` and `y`.
pub(crate) fn call_qm31_limbs_mul(dsl: &mut DSL, t: usize, x: usize, y: usize) -> (r: Result<usize>)
    ensures
        final(dsl).extends(old(dsl)),
        functions_ready(old(dsl).functions@) ==> (r is Ok <==> table_at(old(dsl).mem(), t) && qm31_limbs_valid_at(old(dsl).mem(), x) && qm31_limbs_valid_at(old(dsl).mem(), y)),
        functions_ready(old(dsl).functions@) && r is Ok ==> {
            &&& old(dsl).mem().len() < usize::MAX
            &&& r == Ok::<usize, DslError>(old(dsl).mem().len() as usize)
            &&& final(dsl).mem() == old(dsl).mem().push(qm31_entry(qm31_mul(qm31_of_limbs(nums(old(dsl).mem()[x as int].1)), qm31_of_limbs(nums(old(dsl).mem()[y as int].1)))))
            &&& final(dsl).hint_v() == old(dsl).hint_v() + qm31_mul_quotients(qm31_of_limbs(nums(old(dsl).mem()[x as int].1)), qm31_of_limbs(nums(old(dsl).mem()[y as int].1)))
            &&& final(dsl).hint_v().len() == old(dsl).hint_v().len() + 9
        },
{
    let ghost mem = dsl.mem();
    let ghost functions = dsl.functions@;
    let args = [t, x, y];
    let r = call_one(dsl, "qm31_limbs_mul", &args);
    proof {
        lemma_qm31_mul_quotients_len();
        if functions_ready(functions) {
            assert(args@ == seq![t, x, y]);
            lemma_standard_call(functions, mem, 22, seq![t, x, y], Seq::empty());
            lemma_declared_types();
            reveal(generator_body_spec);
            reveal_with_fuel(inputs_check_from, 4);
        }
    }
    r
}

/// Copies the first half of the element at `x`.
pub(crate) fn call_qm31_first(dsl: &mut DSL, x: usize) -> (r: Result<usize>)
    ensures
        final(dsl).extends(old(dsl)),
        functions_ready(old(dsl).functions@) ==> (r is Ok <==> many_shape_at(old(dsl).mem(), x, "qm31"@, 4)),
        functions_ready(old(dsl).functions@) && r is Ok ==> {
            &&& old(dsl).mem().len() < usize::MAX
            &&& r == Ok::<usize, DslError>(old(dsl).mem().len() as usize)
            &&& final(dsl).mem() == old(dsl).mem().push(("cm31"@, ElementV::ManyNum(seq![nums(old(dsl).mem()[x as int].1)[2], nums(old(dsl).mem()[x as int].1)[3]])))
            &&& final(dsl).hint_v() == old(dsl).hint_v()
        },
{
    let ghost mem = dsl.mem();
    let ghost functions = dsl.functions@;
    let args = [x];
    let r = call_one(dsl, "qm31_first", &args);
    proof {
        if functions_ready(functions) {
            assert(args@ == seq![x]);
            lemma_standard_call(functions, mem, 26, seq![x], Seq::empty());
            lemma_declared_types();
            reveal(generator_body_spec);
            reveal_with_fuel(inputs_check_from, 2);
        }
    }
    r
}

/// Copies the second half of the element at `x`.
pub(crate) fn call_qm31_second(dsl: &mut DSL, x: usize) -> (r: Result<usize>)
    ensures
        final(dsl).extends(old(dsl)),
        functions_ready(old(dsl).functions@) ==> (r is Ok <==> many_shape_at(old(dsl).mem(), x, "qm31"@, 4)),
        functions_ready(old(dsl).functions@) && r is Ok ==> {
            &&& old(dsl).mem().len() < usize::MAX
            &&& r == Ok::<usize, DslError>(old(dsl).mem().len() as usize)
            &&& final(dsl).mem() == old(dsl).mem().push(("cm31"@, ElementV::ManyNum(seq![nums(old(dsl).mem()[x as int].1)[0], nums(old(dsl).mem()[x as int].1)[1]])))
            &&& final(dsl).hint_v() == old(dsl).hint_v()
        },
{
    let ghost mem = dsl.mem();
    let ghost functions = dsl.functions@;
    let args = [x];
    let r = call_one(dsl, "qm31_second", &args);
    proof {
        if functions_ready(functions) {
            assert(args@ == seq![x]);
            lemma_standard_call(functions, mem, 27, seq![x], Seq::empty());
            lemma_declared_types();
            reveal(generator_body_spec);
            reveal_with_fuel(inputs_check_from, 2);
        }
    }
    r
}

/// Joins the halves at `x` and `y`.
pub(crate) fn call_qm31_from_first_and_second(dsl: &mut DSL, x: usize, y: usize) -> (r: Result<usize>)
    ensures
        final(dsl).extends(old(dsl)),
        functions_ready(old(dsl).functions@) ==> (r is Ok <==> many_shape_at(old(dsl).mem(), x, "cm31"@, 2) && many_shape_at(old(dsl).mem(), y, "cm31"@, 2)),
        functions_ready(old(dsl).functions@) && r is Ok ==> {
            &&& old(dsl).mem().len() < usize::MAX
            &&& r == Ok::<usize, DslError>(old(dsl).mem().len() as usize)
            &&& final(dsl).mem() == old(dsl).mem().push(("qm31"@, ElementV::ManyNum(seq![nums(old(dsl).mem()[y as int].1)[0], nums(old(dsl).mem()[y as int].1)[1], nums(old(dsl).mem()[x as int].1)[0], nums(old(dsl).mem()[x as int].1)[1]])))
            &&& final(dsl).hint_v() == old(dsl).hint_v()
        },
{
    let ghost mem = dsl.mem();
    let ghost functions = dsl.functions@;
    let args = [x, y];
    let r = call_one(dsl, "qm31_from_first_and_second", &args);
    proof {
        if functions_ready(functions) {
            assert(args@ == seq![x, y]);
            lemma_standard_call(functions, mem, 33, seq![x, y], Seq::empty());
            lemma_declared_types();
            reveal(generator_body_spec);
            reveal_with_fuel(inputs_check_from, 3);
        }
    }
    r
}

/// Adds the base field element at `m` to the element at `x`.
pub(crate) fn call_qm31_add_m31(dsl: &mut DSL, x: usize, m: usize) -> (r: Result<usize>)
    ensures
        final(dsl).extends(old(dsl)),
        functions_ready(old(dsl).functions@) ==> (r is Ok <==> qm31_valid_at(old(dsl).mem(), x) && m31_valid_at(old(dsl).mem(), m)),
        functions_ready(old(dsl).functions@) && r is Ok ==> {
            &&& old(dsl).mem().len() < usize::MAX
            &&& r == Ok::<usize, DslError>(old(dsl).mem().len() as usize)
            &&& final(dsl).mem() == old(dsl).mem().push(qm31_entry(qm31_add_m31(qm31_value(old(dsl).mem(), x), m31_value(old(dsl).mem(), m))))
            &&& final(dsl).hint_v() == old(dsl).hint_v()
        },
{
    let ghost mem = dsl.mem();
    let ghost functions = dsl.functions@;
    let args = [x, m];
    let r = call_one(dsl, "qm31_add_m31", &args);
    proof {
        if functions_ready(functions) {
            assert(args@ == seq![x, m]);
            lemma_standard_call(functions, mem, 35, seq![x, m], Seq::empty());
            lemma_declared_types();
            reveal(generator_body_spec);
            reveal_with_fuel(inputs_check_from, 3);
        }
    }
    r
}

/// Copies the real part of the complex element at `x`.
pub(crate) fn call_cm31_real(dsl: &mut DSL, x: usize) -> (r: Result<usize>)
    ensures
        final(dsl).extends(old(dsl)),
        functions_ready(old(dsl).functions@) ==> (r is Ok <==> many_shape_at(old(dsl).mem(), x, "cm31"@, 2)),
        functions_ready(old(dsl).functions@) && r is Ok ==> {
            &&& old(dsl).mem().len() < usize::MAX
            &&& r == Ok::<usize, DslError>(old(dsl).mem().len() as usize)
            &&& final(dsl).mem() == old(dsl).mem().push(("m31"@, ElementV::Num(nums(old(dsl).mem()[x as int].1)[1])))
            &&& final(dsl).hint_v() == old(dsl).hint_v()
        },
{
    let ghost mem = dsl.mem();
    let ghost functions = dsl.functions@;
    let args = [x];
    let r = call_one(dsl, "cm31_real", &args);
    proof {
        if functions_ready(functions) {
            assert(args@ == seq![x]);
            lemma_standard_call(functions, mem, 17, seq![x], Seq::empty());
            lemma_declared_types();
            reveal(generator_body_spec);
            reveal_with_fuel(inputs_check_from, 2);
        }
    }
    r
}

/// Copies the imaginary part of the complex element at `x`.
pub(crate) fn call_cm31_imag(dsl: &mut DSL, x: usize) -> (r: Result<usize>)
    ensures
        final(dsl).extends(old(dsl)),
        functions_ready(old(dsl).functions@) ==> (r is Ok <==> many_shape_at(old(dsl).mem(), x, "cm31"@, 2)),
        functions_ready(old(dsl).functions@) && r is Ok ==> {
            &&& old(dsl).mem().len() < usize::MAX
            &&& r == Ok::<usize, DslError>(old(dsl).mem().len() as usize)
            &&& final(dsl).mem() == old(dsl).mem().push(("m31"@, ElementV::Num(nums(old(dsl).mem()[x as int].1)[0])))
            &&& final(dsl).hint_v() == old(dsl).hint_v()
        },
{
    let ghost mem = dsl.mem();
    let ghost functions = dsl.functions@;
    let args = [x];
    let r = call_one(dsl, "cm31_imag", &args);
    proof {
        if functions_ready(functions) {
            assert(args@ == seq![x]);
            lemma_standard_call(functions, mem, 18, seq![x], Seq::empty());
            lemma_declared_types();
            reveal(generator_body_spec);
            reveal_with_fuel(inputs_check_from, 2);
        }
    }
    r
}

/// Splits the number at `x` into limbs.
pub(crate) fn call_m31_to_limbs(dsl: &mut DSL, x: usize) -> (r: Result<usize>)
    ensures
        final(dsl).extends(old(dsl)),
        functions_ready(old(dsl).functions@) ==> (r is Ok <==> num_shape_at(old(dsl).mem(), x, "m31"@)),
        functions_ready(old(dsl).functions@) && r is Ok ==> {
            &&& old(dsl).mem().len() < usize::MAX
            &&& r == Ok::<usize, DslError>(old(dsl).mem().len() as usize)
            &&& final(dsl).mem() == old(dsl).mem().push(("m31_limbs"@, ElementV::ManyNum(i32_limbs(num(old(dsl).mem()[x as int].1)))))
            &&& final(dsl).hint_v() == old(dsl).hint_v().push(("m31_limbs"@, ElementV::ManyNum(i32_limbs(num(old(dsl).mem()[x as int].1)))))
        },
{
    let ghost mem = dsl.mem();
    let ghost functions = dsl.functions@;
    let args = [x];
    let r = call_one(dsl, "m31_to_limbs", &args);
    proof {
        if functions_ready(functions) {
            assert(args@ == seq![x]);
            lemma_standard_call(functions, mem, 1, seq![x], Seq::empty());
            lemma_declared_types();
            reveal(generator_body_spec);
            reveal_with_fuel(inputs_check_from, 2);
        }
    }
    r
}

/// Multiplies the base field elements whose limbs are at `x` and `y`.
pub(crate) fn call_m31_limbs_mul(dsl: &mut DSL, t: usize, x: usize, y: usize) -> (r: Result<usize>)
    ensures
        final(dsl).extends(old(dsl)),
        functions_ready(old(dsl).functions@) ==> (r is Ok <==> table_at(old(dsl).mem(), t) && m31_limbs_valid_at(old(dsl).mem(), x) && m31_limbs_valid_at(old(dsl).mem(), y)),
        functions_ready(old(dsl).functions@) && r is Ok ==> {
            &&& old(dsl).mem().len() < usize::MAX
            &&& r == Ok::<usize, DslError>(old(dsl).mem().len() as usize)
            &&& final(dsl).mem() == old(dsl).mem().push(("m31"@, ElementV::Num(((limbs_value(nums(old(dsl).mem()[x as int].1)) * limbs_value(nums(old(dsl).mem()[y as int].1))) % (P as int)) as i32)))
            &&& final(dsl).hint_v() == old(dsl).hint_v().push(quotient_entry("m31"@, mul_quotient(limbs_value(nums(old(dsl).mem()[x as int].1)), limbs_value(nums(old(dsl).mem()[y as int].1)))))
        },
{
    let ghost mem = dsl.mem();
    let ghost functions = dsl.functions@;
    let args = [t, x, y];
    let r = call_one(dsl, "m31_limbs_mul", &args);
    proof {
        if functions_ready(functions) {
            assert(args@ == seq![t, x, y]);
            lemma_standard_call(functions, mem, 3, seq![t, x, y], Seq::empty());
            lemma_declared_types();
            reveal(generator_body_spec);
            reveal_with_fuel(inputs_check_from, 4);
        }
    }
    r
}

/// Makes the complex element with real part at `x` and imaginary part at `y`.
pub(crate) fn call_cm31_from_real_and_imag(dsl: &mut DSL, x: usize, y: usize) -> (r: Result<usize>)
    ensures
        final(dsl).extends(old(dsl)),
        functions_ready(old(dsl).functions@) ==> (r is Ok <==> num_shape_at(old(dsl).mem(), x, "m31"@) && num_shape_at(old(dsl).mem(), y, "m31"@)),
        functions_ready(old(dsl).functions@) && r is Ok ==> {
            &&& old(dsl).mem().len() < usize::MAX
            &&& r == Ok::<usize, DslError>(old(dsl).mem().len() as usize)
            &&& final(dsl).mem() == old(dsl).mem().push(("cm31"@, ElementV::ManyNum(seq![num(old(dsl).mem()[y as int].1), num(old(dsl).mem()[x as int].1)])))
            &&& final(dsl).hint_v() == old(dsl).hint_v()
        },
{
    let ghost mem = dsl.mem();
    let ghost functions = dsl.functions@;
    let args = [x, y];
    let r = call_one(dsl, "cm31_from_real_and_imag", &args);
    proof {
        if functions_ready(functions) {
            assert(args@ == seq![x, y]);
            lemma_standard_call(functions, mem, 19, seq![x, y], Seq::empty());
            lemma_declared_types();
            reveal(generator_body_spec);
            reveal_with_fuel(inputs_check_from, 3);
        }
    }
    r
}

/// Splits the complex element at `x` into limbs.
pub(crate) fn call_cm31_to_limbs(dsl: &mut DSL, x: usize) -> (r: Result<usize>)
    ensures
        final(dsl).extends(old(dsl)),
        functions_ready(old(dsl).functions@) ==> (r is Ok <==> many_shape_at(old(dsl).mem(), x, "cm31"@, 2)),
        functions_ready(old(dsl).functions@) && r is Ok ==> {
            &&& old(dsl).mem().len() < usize::MAX
            &&& r == Ok::<usize, DslError>(old(dsl).mem().len() as usize)
            &&& final(dsl).mem() == old(dsl).mem().push(("cm31_limbs"@, ElementV::ManyNum(i32_limbs(nums(old(dsl).mem()[x as int].1)[1]) + i32_limbs(nums(old(dsl).mem()[x as int].1)[0]))))
            &&& final(dsl).hint_v() == old(dsl).hint_v().push(("cm31_limbs"@, ElementV::ManyNum(i32_limbs(nums(old(dsl).mem()[x as int].1)[1]) + i32_limbs(nums(old(dsl).mem()[x as int].1)[0]))))
        },
{
    let ghost mem = dsl.mem();
    let ghost functions = dsl.functions@;
    let args = [x];
    let r = call_one(dsl, "cm31_to_limbs", &args);
    proof {
        if functions_ready(functions) {
            assert(args@ == seq![x]);
            lemma_standard_call(functions, mem, 6, seq![x], Seq::empty());
            lemma_declared_types();
            reveal(generator_body_spec);
            reveal_with_fuel(inputs_check_from, 2);
        }
    }
    r
}

/// Multiplies the complex elements whose limbs are at `x` and `y`.
pub(crate) fn call_cm31_limbs_mul(dsl: &mut DSL, t: usize, x: usize, y: usize) -> (r: Result<usize>)
    ensures
        final(dsl).extends(old(dsl)),
        functions_ready(old(dsl).functions@) ==> (r is Ok <==> table_at(old(dsl).mem(), t) && cm31_limbs_valid_at(old(dsl).mem(), x) && cm31_limbs_valid_at(old(dsl).mem(), y)),
        functions_ready(old(dsl).functions@) && r is Ok ==> {
            &&& old(dsl).mem().len() < usize::MAX
            &&& r == Ok::<usize, DslError>(old(dsl).mem().len() as usize)
            &&& final(dsl).mem() == old(dsl).mem().push(cm31_entry(cm31_mul(cm31_of_limbs(nums(old(dsl).mem()[x as int].1)), cm31_of_limbs(nums(old(dsl).mem()[y as int].1)))))
            &&& final(dsl).hint_v() == old(dsl).hint_v() + cm31_mul_quotients("m31"@, cm31_of_limbs(nums(old(dsl).mem()[x as int].1)), cm31_of_limbs(nums(old(dsl).mem()[y as int].1)))
            &&& final(dsl).hint_v().len() == old(dsl).hint_v().len() + 3
        },
{
    let ghost mem = dsl.mem();
    let ghost functions = dsl.functions@;
    let args = [t, x, y];
    let r = call_one(dsl, "cm31_limbs_mul", &args);
    proof {
        lemma_cm31_mul_quotients_len();
        if functions_ready(functions) {
            assert(args@ == seq![t, x, y]);
            lemma_standard_call(functions, mem, 8, seq![t, x, y], Seq::empty());
            lemma_declared_types();
            reveal(generator_body_spec);
            reveal_with_fuel(inputs_check_from, 4);
        }
    }
    r
}

/// Adds the complex elements at `x` and `y`.
pub(crate) fn call_cm31_add(dsl: &mut DSL, x: usize, y: usize) -> (r: Result<usize>)
    ensures
        final(dsl).extends(old(dsl)),
        functions_ready(old(dsl).functions@) ==> (r is Ok <==> cm31_valid_at(old(dsl).mem(), x) && cm31_valid_at(old(dsl).mem(), y)),
        functions_ready(old(dsl).functions@) && r is Ok ==> {
            &&& old(dsl).mem().len() < usize::MAX
            &&& r == Ok::<usize, DslError>(old(dsl).mem().len() as usize)
            &&& final(dsl).mem() == old(dsl).mem().push(cm31_entry(cm31_add(cm31_value(old(dsl).mem(), x), cm31_value(old(dsl).mem(), y))))
            &&& final(dsl).hint_v() == old(dsl).hint_v()
        },
{
    let ghost mem = dsl.mem();
    let ghost functions = dsl.functions@;
    let args = [x, y];
    let r = call_one(dsl, "cm31_add", &args);
    proof {
        if functions_ready(functions) {
            assert(args@ == seq![x, y]);
            lemma_standard_call(functions, mem, 12, seq![x, y], Seq::empty());
            lemma_declared_types();
            reveal(generator_body_spec);
            reveal_with_fuel(inputs_check_from, 3);
        }
    }
    r
}

/// Subtracts the complex element at `y` from the one at `x`.
pub(crate) fn call_cm31_sub(dsl: &mut DSL, x: usize, y: usize) -> (r: Result<usize>)
    ensures
        final(dsl).extends(old(dsl)),
        functions_ready(old(dsl).functions@) ==> (r is Ok <==> cm31_valid_at(old(dsl).mem(), x) && cm31_valid_at(old(dsl).mem(), y)),
        functions_ready(old(dsl).functions@) && r is Ok ==> {
            &&& old(dsl).mem().len() < usize::MAX
            &&& r == Ok::<usize, DslError>(old(dsl).mem().len() as usize)
            &&& final(dsl).mem() == old(dsl).mem().push(cm31_entry(cm31_sub(cm31_value(old(dsl).mem(), x), cm31_value(old(dsl).mem(), y))))
            &&& final(dsl).hint_v() == old(dsl).hint_v()
        },
{
    let ghost mem = dsl.mem();
    let ghost functions = dsl.functions@;
    let args = [x, y];
    let r = call_one(dsl, "cm31_sub", &args);
    proof {
        if functions_ready(functions) {
            assert(args@ == seq![x, y]);
            lemma_standard_call(functions, mem, 14, seq![x, y], Seq::empty());
            lemma_declared_types();
            reveal(generator_body_spec);
            reveal_with_fuel(inputs_check_from, 3);
        }
    }
    r
}

/// Adds the base field element at `m` to the complex element at `x`.
pub(crate) fn call_cm31_add_m31(dsl: &mut DSL, x: usize, m: usize) -> (r: Result<usize>)
    ensures
        final(dsl).extends(old(dsl)),
        functions_ready(old(dsl).functions@) ==> (r is Ok <==> cm31_valid_at(old(dsl).mem(), x) && m31_valid_at(old(dsl).mem(), m)),
        functions_ready(old(dsl).functions@) && r is Ok ==> {
            &&& old(dsl).mem().len() < usize::MAX
            &&& r == Ok::<usize, DslError>(old(dsl).mem().len() as usize)
            &&& final(dsl).mem() == old(dsl).mem().push(cm31_entry(cm31_add_m31(cm31_value(old(dsl).mem(), x), m31_value(old(dsl).mem(), m))))
            &&& final(dsl).hint_v() == old(dsl).hint_v()
        },
{
    let ghost mem = dsl.mem();
    let ghost functions = dsl.functions@;
    let args = [x, m];
    let r = call_one(dsl, "cm31_add_m31", &args);
    proof {
        if functions_ready(functions) {
            assert(args@ == seq![x, m]);
            lemma_standard_call(functions, mem, 13, seq![x, m], Seq::empty());
            lemma_declared_types();
            reveal(generator_body_spec);
            reveal_with_fuel(inputs_check_from, 3);
        }
    }
    r
}

/// Adds the complex element at `c` to the first half of the element at `x`.
pub(crate) fn call_qm31_add_cm31(dsl: &mut DSL, x: usize, c: usize) -> (r: Result<usize>)
    ensures
        final(dsl).extends(old(dsl)),
        functions_ready(old(dsl).functions@) ==> (r is Ok <==> qm31_valid_at(old(dsl).mem(), x) && cm31_valid_at(old(dsl).mem(), c)),
        functions_ready(old(dsl).functions@) && r is Ok ==> {
            &&& old(dsl).mem().len() < usize::MAX
            &&& r == Ok::<usize, DslError>(old(dsl).mem().len() as usize)
            &&& final(dsl).mem() == old(dsl).mem().push(qm31_entry(qm31_add(qm31_value(old(dsl).mem(), x), QM31(cm31_value(old(dsl).mem(), c), cm31_zero()))))
            &&& final(dsl).hint_v() == old(dsl).hint_v()
        },
{
    let ghost mem = dsl.mem();
    let ghost functions = dsl.functions@;
    let args = [x, c];
    let r = call_one(dsl, "qm31_add_cm31", &args);
    proof {
        if functions_ready(functions) {
            assert(args@ == seq![x, c]);
            lemma_standard_call(functions, mem, 34, seq![x, c], Seq::empty());
            lemma_declared_types();
            reveal(generator_body_spec);
            reveal_with_fuel(inputs_check_from, 3);
        }
    }
    r
}

/// Inverts the complex element whose limbs are at `x`.
pub(crate) fn call_cm31_limbs_inverse(dsl: &mut DSL, t: usize, x: usize) -> (r: Result<usize>)
    ensures
        final(dsl).extends(old(dsl)),
        functions_ready(old(dsl).functions@) ==> (r is Ok <==> table_at(old(dsl).mem(), t) && cm31_limbs_valid_at(old(dsl).mem(), x) && cm31_norm(cm31_of_limbs(nums(old(dsl).mem()[x as int].1))).0 != 0),
        functions_ready(old(dsl).functions@) && r is Ok ==> {
            &&& old(dsl).mem().len() < usize::MAX
            &&& r == Ok::<usize, DslError>(old(dsl).mem().len() as usize)
            &&& final(dsl).mem() == old(dsl).mem().push(("cm31_limbs"@, ElementV::ManyNum(cm31_limbs(cm31_inverse_with(cm31_of_limbs(nums(old(dsl).mem()[x as int].1)), inv_m(cm31_norm(cm31_of_limbs(nums(old(dsl).mem()[x as int].1)))))))))
            &&& final(dsl).hint_v() == old(dsl).hint_v().push(("cm31_limbs"@, ElementV::ManyNum(cm31_limbs(cm31_inverse_with(cm31_of_limbs(nums(old(dsl).mem()[x as int].1)), inv_m(cm31_norm(cm31_of_limbs(nums(old(dsl).mem()[x as int].1))))))))) + cm31_mul_quotients("m31"@, cm31_of_limbs(nums(old(dsl).mem()[x as int].1)), cm31_inverse_with(cm31_of_limbs(nums(old(dsl).mem()[x as int].1)), inv_m(cm31_norm(cm31_of_limbs(nums(old(dsl).mem()[x as int].1))))))
            &&& final(dsl).hint_v().len() == old(dsl).hint_v().len() + 4
        },
{
    let ghost mem = dsl.mem();
    let ghost functions = dsl.functions@;
    let args = [t, x];
    let r = call_one(dsl, "cm31_limbs_inverse", &args);
    proof {
        lemma_cm31_mul_quotients_len();
        if functions_ready(functions) {
            if x < mem.len() && valid_cm31_limbs(nums(mem[x as int].1)) {
                lemma_cm31_norm_zero(cm31_of_limbs(nums(mem[x as int].1)));
            }
            assert(args@ == seq![t, x]);
            lemma_standard_call(functions, mem, 9, seq![t, x], Seq::empty());
            lemma_declared_types();
            reveal(generator_body_spec);
            reveal_with_fuel(inputs_check_from, 3);
        }
    }
    r
}

/// Inverts the degree-4 element whose limbs are at `x`.
pub(crate) fn call_qm31_limbs_inverse(dsl: &mut DSL, t: usize, x: usize) -> (r: Result<usize>)
    ensures
        final(dsl).extends(old(dsl)),
        functions_ready(old(dsl).functions@) ==> (r is Ok <==> table_at(old(dsl).mem(), t) && qm31_limbs_valid_at(old(dsl).mem(), x) && qm31_invertible(qm31_of_limbs(nums(old(dsl).mem()[x as int].1)))),
        functions_ready(old(dsl).functions@) && r is Ok ==> {
            &&& old(dsl).mem().len() < usize::MAX
            &&& r == Ok::<usize, DslError>(old(dsl).mem().len() as usize)
            &&& final(dsl).mem() == old(dsl).mem().push(("qm31_limbs"@, ElementV::ManyNum(qm31_limbs(qm31_inverse(qm31_of_limbs(nums(old(dsl).mem()[x as int].1)))))))
            &&& final(dsl).hint_v() == old(dsl).hint_v().push(("qm31_limbs"@, ElementV::ManyNum(qm31_limbs(qm31_inverse(qm31_of_limbs(nums(old(dsl).mem()[x as int].1))))))) + qm31_mul_quotients(qm31_of_limbs(nums(old(dsl).mem()[x as int].1)), qm31_inverse(qm31_of_limbs(nums(old(dsl).mem()[x as int].1))))
            &&& final(dsl).hint_v().len() == old(dsl).hint_v().len() + 10
        },
{
    let ghost mem = dsl.mem();
    let ghost functions = dsl.functions@;
    let args = [t, x];
    let r = call_one(dsl, "qm31_limbs_inverse", &args);
    proof {
        lemma_qm31_mul_quotients_len();
        if functions_ready(functions) {
            if x < mem.len() && valid_qm31_limbs(nums(mem[x as int].1)) {
                lemma_qm31_invertible_iff_nonzero(qm31_of_limbs(nums(mem[x as int].1)));
            }
            assert(args@ == seq![t, x]);
            lemma_standard_call(functions, mem, 39, seq![t, x], Seq::empty());
            lemma_declared_types();
            reveal(generator_body_spec);
            reveal_with_fuel(inputs_check_from, 3);
        }
    }
    r
}

/// Checks that the elements at `x` and `y`, both of data type `qm31`, hold
/// the same numbers.
pub(crate) fn call_qm31_equalverify(dsl: &mut DSL, x: usize, y: usize) -> (r: Result<()>)
    ensures
        final(dsl).extends(old(dsl)),
        functions_ready(old(dsl).functions@) ==> (r is Ok <==> {
            let m = old(dsl).mem();
            &&& x < m.len() && y < m.len()
            &&& m[x as int].0 == "qm31"@ && m[y as int].0 == "qm31"@
            &&& m[x as int].1 is ManyNum && m[y as int].1 is ManyNum
            &&& nums(m[x as int].1) == nums(m[y as int].1)
        }),
        functions_ready(old(dsl).functions@) && r is Ok ==> final(dsl).mem() == old(dsl).mem()
            && final(dsl).hint_v() == old(dsl).hint_v(),
{
    let ghost mem = dsl.mem();
    let ghost functions = dsl.functions@;
    let args = [x, y];
    let r = dsl.execute("qm31_equalverify", &args);
    proof {
        if functions_ready(functions) {
            assert(args@ == seq![x, y]);
            lemma_standard_call(functions, mem, 25, seq![x, y], Seq::empty());
            lemma_declared_types();
            reveal(generator_body_spec);
            reveal_with_fuel(inputs_check_from, 3);
            assert(Seq::<EntryV>::empty() + Seq::<EntryV>::empty() =~= Seq::<EntryV>::empty());
            assert(mem + Seq::<EntryV>::empty() =~= mem);
            assert(old(dsl).hint_v() + Seq::<EntryV>::empty() =~= old(dsl).hint_v());
        }
    }
    match r {
        Ok(_) => Ok(()),
        Err(e) => Err(e),
    }
}

/// Allocates the degree-4 element `q` as a hint.
pub(crate) fn alloc_qm31_hint(dsl: &mut DSL, q: QM31) -> (r: Result<usize>)
    requires
        q.wf(),
    ensures
        final(dsl).extends(old(dsl)),
        data_types_ready(old(dsl).data_types@) ==> {
            &&& old(dsl).mem().len() < usize::MAX
            &&& r == Ok::<usize, DslError>(old(dsl).mem().len() as usize)
            &&& final(dsl).mem() == old(dsl).mem().push(qm31_entry(q))
            &&& final(dsl).hint_v() == old(dsl).hint_v().push(qm31_entry(q))
        },
{
    let data = reformat_qm31_to_dsl_element(q);
    proof {
        if data_types_ready(dsl.data_types@) {
            lemma_standard_type_accepts(dsl.data_types@, 6, ElementV::ManyNum(data@));
        }
    }
    let r = dsl.alloc_hint("qm31", Element::ManyNum(data));
    let total = dsl.memory.len();
    assert(dsl.mem().len() == dsl.memory@.len());
    r
}

/// Every element that the base field operations give is canonical.
pub proof fn lemma_m31_ops_wf()
    ensures
        forall|a: M31, b: M31| (#[trigger] add_m(a, b)).wf(),
        forall|a: M31, b: M31| (#[trigger] sub_m(a, b)).wf(),
        forall|a: M31| (#[trigger] neg_m(a)).wf(),
        forall|a: M31, b: M31| (#[trigger] mul_m(a, b)).wf(),
{
}

/// The operations on degree-4 elements give canonical elements.
pub proof fn lemma_qm31_ops_wf(a: QM31, b: QM31, m: M31)
    ensures
        qm31_add(a, b).wf(),
        qm31_sub(a, b).wf(),
        qm31_neg(a).wf(),
        qm31_mul(a, b).wf(),
        a.wf() ==> qm31_add_m31(a, m).wf(),
        qm31_mul_m31(a, m).wf(),
        qm31_mul_cm31(a, b.0).wf(),
        b.0.wf() ==> qm31_add(a, QM31(b.0, cm31_zero())).wf(),
{
    reveal(qm31_mul_cm31);
    reveal(cm31_add);
    reveal(cm31_sub);
    reveal(cm31_neg);
    reveal(cm31_mul);
    reveal(cm31_mul_m31);
    reveal(cm31_add_m31);
    reveal(qm31_add);
    reveal(qm31_sub);
    reveal(qm31_neg);
    reveal(qm31_mul);
    reveal(qm31_add_m31);
    reveal(qm31_mul_m31);
    lemma_m31_ops_wf();
}

/// A canonical element pushed as an entry is a valid element there, and
/// reads back as itself.
pub proof fn lemma_qm31_entry(mem: Seq<EntryV>, q: QM31)
    requires
        q.wf(),
        mem.len() < usize::MAX,
    ensures
        qm31_valid_at(mem.push(qm31_entry(q)), mem.len() as usize),
        qm31_value(mem.push(qm31_entry(q)), mem.len() as usize) == q,
{
    let m2 = mem.push(qm31_entry(q));
    assert(m2[mem.len() as int] == qm31_entry(q));
    assert(nums(m2[mem.len() as int].1) == qm31_elem(q));
}

/// The indices lie inside the memory.
pub open spec fn indices_in(m: Seq<EntryV>, idx: Seq<usize>) -> bool {
    forall|k: int| 0 <= k < idx.len() ==> #[trigger] idx[k] < m.len()
}

/// With the standard data types registered, `name` (standard type `k`)
/// accepts every element of its shape.
proof fn lemma_standard_type_accepts(data_types: Seq<(String, ElementType)>, k: int, e: ElementV)
    requires
        data_types_ready(data_types),
        0 <= k < standard_data_types().len(),
        element_fits(e, standard_data_types()[k].1),
    ensures
        type_accepts(data_types, standard_data_types()[k].0, e),
{
    reveal(data_types_ready);
    assert(standard_type_registered(data_types, k));
}

/// Puts the limbs of the base field element `v` into the memory as a
/// constant.
pub(crate) fn alloc_m31_limbs_constant(dsl: &mut DSL, v: M31) -> (r: Result<usize>)
    requires
        v.wf(),
    ensures
        final(dsl).extends(old(dsl)),
        data_types_ready(old(dsl).data_types@) ==> {
            &&& old(dsl).mem().len() < usize::MAX
            &&& r == Ok::<usize, DslError>(old(dsl).mem().len() as usize)
            &&& final(dsl).mem() == old(dsl).mem().push(
                ("m31_limbs"@, ElementV::ManyNum(m31_limbs(v.val()))),
            )
            &&& final(dsl).hint_v() == old(dsl).hint_v()
        },
{
    let l = convert_m31_to_limbs(v.0);
    let data = vec![l[0], l[1], l[2], l[3]];
    assert(data@ =~= m31_limbs(v.val()));
    proof {
        if data_types_ready(dsl.data_types@) {
            lemma_standard_type_accepts(dsl.data_types@, 1, ElementV::ManyNum(data@));
        }
    }
    let r = dsl.alloc_constant("m31_limbs", Element::ManyNum(data));
    let total = dsl.memory.len();
    assert(dsl.mem().len() == dsl.memory@.len());
    r
}

/// Puts the base field element `v` into the memory as a constant.
pub(crate) fn alloc_m31_constant(dsl: &mut DSL, v: M31) -> (r: Result<usize>)
    requires
        v.wf(),
    ensures
        final(dsl).extends(old(dsl)),
        data_types_ready(old(dsl).data_types@) ==> {
            &&& old(dsl).mem().len() < usize::MAX
            &&& r == Ok::<usize, DslError>(old(dsl).mem().len() as usize)
            &&& final(dsl).mem() == old(dsl).mem().push(("m31"@, ElementV::Num(v.0 as i32)))
            &&& final(dsl).hint_v() == old(dsl).hint_v()
        },
{
    proof {
        if data_types_ready(dsl.data_types@) {
            lemma_standard_type_accepts(dsl.data_types@, 4, ElementV::Num(v.0 as i32));
        }
    }
    let r = dsl.alloc_constant("m31", Element::Num(v.0 as i32));
    let total = dsl.memory.len();
    assert(dsl.mem().len() == dsl.memory@.len());
    r
}

/// The limbs that splitting a complex element `[im, re]` gives are valid
/// exactly when the element is, and stand for it.
pub proof fn lemma_cm31_i32_limbs(n: Seq<i32>)
    requires
        n.len() == 2,
    ensures
        valid_cm31_limbs(i32_limbs(n[1]) + i32_limbs(n[0])) <==> valid_cm31_elem(n),
        valid_cm31_elem(n) ==> cm31_of_limbs(i32_limbs(n[1]) + i32_limbs(n[0])) == cm31_of_elem(n),
{
    let l = i32_limbs(n[1]) + i32_limbs(n[0]);
    assert(l.subrange(0, 4) =~= i32_limbs(n[1]));
    assert(l.subrange(4, 8) =~= i32_limbs(n[0]));
    lemma_i32_limbs_valid(n[1]);
    lemma_i32_limbs_valid(n[0]);
}

/// The limbs that splitting a degree-4 element gives are valid exactly when
/// the element is, and stand for it.
pub proof fn lemma_qm31_i32_limbs(n: Seq<i32>)
    requires
        n.len() == 4,
    ensures
        valid_qm31_limbs(i32_limbs(n[3]) + i32_limbs(n[2]) + i32_limbs(n[1]) + i32_limbs(n[0]))
            <==> valid_qm31_elem(n),
        valid_qm31_elem(n) ==> qm31_of_limbs(
            i32_limbs(n[3]) + i32_limbs(n[2]) + i32_limbs(n[1]) + i32_limbs(n[0]),
        ) == qm31_of_elem(n),
{
    let l = i32_limbs(n[3]) + i32_limbs(n[2]) + i32_limbs(n[1]) + i32_limbs(n[0]);
    let first = seq![n[2], n[3]];
    let second = seq![n[0], n[1]];
    assert(l.subrange(0, 8) =~= i32_limbs(first[1]) + i32_limbs(first[0]));
    assert(l.subrange(8, 16) =~= i32_limbs(second[1]) + i32_limbs(second[0]));
    lemma_cm31_i32_limbs(first);
    lemma_cm31_i32_limbs(second);
}

/// A canonical complex element pushed as an entry is a valid element there,
/// and reads back as itself.
pub proof fn lemma_cm31_entry(mem: Seq<EntryV>, c: CM31)
    requires
        c.wf(),
        mem.len() < usize::MAX,
    ensures
        cm31_valid_at(mem.push(cm31_entry(c)), mem.len() as usize),
        cm31_value(mem.push(cm31_entry(c)), mem.len() as usize) == c,
{
    let m2 = mem.push(cm31_entry(c));
    assert(m2[mem.len() as int] == cm31_entry(c));
    assert(nums(m2[mem.len() as int].1) == cm31_elem(c));
}

/// The standard functions and data types are registered.
pub open spec fn dsl_ready(dsl: &DSL) -> bool {
    functions_ready(dsl.functions@) && data_types_ready(dsl.data_types@)
}

/// The operations on complex elements give canonical elements.
pub proof fn lemma_cm31_ops_wf(a: CM31, b: CM31, m: M31)
    ensures
        cm31_add(a, b).wf(),
        cm31_sub(a, b).wf(),
        cm31_mul(a, b).wf(),
        cm31_mul_m31(a, m).wf(),
        a.wf() ==> cm31_add_m31(a, m).wf(),
        cm31_inverse_with(a, m).wf(),
{
    reveal(cm31_add);
    reveal(cm31_sub);
    reveal(cm31_mul);
    reveal(cm31_mul_m31);
    reveal(cm31_add_m31);
    reveal(cm31_inverse_with);
    lemma_m31_ops_wf();
}

/// The limbs of a canonical complex element are valid and stand for it.
pub proof fn lemma_cm31_limbs_roundtrip(c: CM31)
    requires
        c.wf(),
    ensures
        valid_cm31_limbs(cm31_limbs(c)),
        cm31_of_limbs(cm31_limbs(c)) == c,
{
    let l = cm31_limbs(c);
    lemma_limbs_roundtrip(c.0.0);
    lemma_limbs_roundtrip(c.1.0);
    assert(l.subrange(0, 4) =~= m31_limbs(c.0.val()));
    assert(l.subrange(4, 8) =~= m31_limbs(c.1.val()));
}

/// The limbs of a canonical degree-4 element are valid and stand for it.
pub proof fn lemma_qm31_limbs_roundtrip(q: QM31)
    requires
        q.wf(),
    ensures
        valid_qm31_limbs(qm31_limbs(q)),
        qm31_of_limbs(qm31_limbs(q)) == q,
{
    let l = qm31_limbs(q);
    lemma_cm31_limbs_roundtrip(q.0);
    lemma_cm31_limbs_roundtrip(q.1);
    assert(l.subrange(0, 8) =~= cm31_limbs(q.0));
    assert(l.subrange(8, 16) =~= cm31_limbs(q.1));
}

/// The inverse of a degree-4 element is canonical.
pub proof fn lemma_qm31_inverse_wf(x: QM31)
    ensures
        qm31_inverse(x).wf(),
{
    reveal(cm31_mul);
    lemma_m31_ops_wf();
}

/// The inverse of a complex element with a nonzero norm.
pub open spec fn cm31_inverse(c: CM31) -> CM31 {
    cm31_inverse_with(c, inv_m(cm31_norm(c)))
}

/// An entry that holds a canonical degree-4 element is a valid element.
pub proof fn lemma_qm31_entry_at(mem: Seq<EntryV>, i: usize, q: QM31)
    requires
        i < mem.len(),
        mem[i as int] == qm31_entry(q),
        q.wf(),
    ensures
        qm31_valid_at(mem, i),
        qm31_value(mem, i) == q,
{
    assert(nums(mem[i as int].1) == qm31_elem(q));
}

/// An entry that holds a canonical complex element is a valid element.
pub proof fn lemma_cm31_entry_at(mem: Seq<EntryV>, i: usize, c: CM31)
    requires
        i < mem.len(),
        mem[i as int] == cm31_entry(c),
        c.wf(),
    ensures
        cm31_valid_at(mem, i),
        cm31_value(mem, i) == c,
{
    assert(nums(mem[i as int].1) == cm31_elem(c));
}

} // verus!
