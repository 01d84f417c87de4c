//! The schema compiler and directive resolver.
//!
//! A record's wire format is declared once as a [`RecordSpec`]: a struct's
//! fields in order, each with a declared type and at most one directive, or
//! an enum's representation type and variants.  [`compile_record`] validates
//! the description and resolves every directive — sibling references become
//! field indices, omitted enum discriminants are inferred — producing a
//! [`CompiledRecord`] that the encode and decode procedures in
//! [`crate::codec`] reproduce byte for byte at run time.

use crate::record::FieldType;
use vstd::prelude::*;

verus! {

/// A boolean expression over sibling field names, as written in a record
/// description.
#[derive(Debug)]
pub enum Predicate {
    /// A constant.
    Const(bool),
    /// The value of the named boolean field.
    Field(String),
    /// Whether the named unsigned integer field equals the literal.
    EqUint(String, u64),
    /// Whether the named signed integer field equals the literal.
    EqInt(String, i64),
    /// Both operands hold.
    And(Box<Predicate>, Box<Predicate>),
    /// At least one operand holds.
    Or(Box<Predicate>, Box<Predicate>),
    /// The operand does not hold.
    Not(Box<Predicate>),
}

/// A per-field directive controlling conditional encoding.
#[derive(Debug)]
pub enum Directive {
    /// The field never reaches the wire and decodes to its default.
    Skip,
    /// The field is written unwrapped and demanded present when the named
    /// sibling is present; encoding fails when the sibling is absent.
    Require(String),
    /// The field is written unwrapped when the named sibling is present and
    /// omitted otherwise.
    IfPresent(String),
    /// The field is written unwrapped when the predicate holds over the
    /// earlier fields, and omitted otherwise.
    Satisfy(Predicate),
}

/// One field of a struct or of a variant payload: a name, a declared type,
/// and the directives written on it (at most one is accepted).
#[derive(Debug)]
pub struct FieldSpec {
    pub name: String,
    pub ty: FieldType,
    pub directives: Vec<Directive>,
}

/// One enum variant: an optional explicit discriminant and a positional
/// payload.
#[derive(Debug)]
pub struct VariantSpec {
    pub name: String,
    pub discriminant: Option<i128>,
    pub fields: Vec<FieldSpec>,
}

/// The primitive integer type that carries an enum's discriminant.
#[derive(Clone, Copy, Debug, PartialEq, Eq, Structural)]
pub enum ReprType {
    U8,
    U16,
    U32,
    U64,
    U128,
    I8,
    I16,
    I32,
    I64,
    I128,
}

/// A declarative record description: the input of the schema compiler.
#[derive(Debug)]
pub enum RecordSpec {
    /// A struct: `named` tells whether the fields carry usable names; a
    /// positional (tuple) struct admits only the skip directive.
    Struct { named: bool, fields: Vec<FieldSpec> },
    /// An enum: the representation type is mandatory.
    Enum { repr: Option<ReprType>, variants: Vec<VariantSpec> },
}

/// A configuration error: the record description violates a schema rule.
/// These arise only while compiling a description, never at run time.
#[derive(Clone, Copy, Debug, PartialEq, Eq, Structural)]
pub enum SchemaError {
    /// The record has no fields, or the enum no variants.
    EmptyRecord,
    /// A field carries more than one directive.
    MultipleDirectives,
    /// A conditional directive sits on a field that is not optional, or on a
    /// positional field.
    BadDirectivePlacement,
    /// A directive names a sibling that does not exist earlier in the record,
    /// or one that is not an optional field.
    UnknownSibling,
    /// The enum declares no representation type.
    MissingRepr,
    /// Two variants resolve to the same discriminant.
    DuplicateDiscriminant,
    /// A variant's discriminant does not fit the representation type.
    DiscriminantOutOfRange,
}

impl SchemaError {
    /// A human-readable description of the error.
    pub fn get_message(&self) -> (r: String)
        ensures
            r@.len() > 0,
    {
        match self {
            SchemaError::EmptyRecord => {
                proof {
                    reveal_strlit("Record has no fields to encode or decode");
                }
                "Record has no fields to encode or decode".to_owned()
            },
            SchemaError::MultipleDirectives => {
                proof {
                    reveal_strlit("A field carries more than one directive");
                }
                "A field carries more than one directive".to_owned()
            },
            SchemaError::BadDirectivePlacement => {
                proof {
                    reveal_strlit("Directive placed on a field that cannot carry it");
                }
                "Directive placed on a field that cannot carry it".to_owned()
            },
            SchemaError::UnknownSibling => {
                proof {
                    reveal_strlit("Directive references no earlier optional sibling");
                }
                "Directive references no earlier optional sibling".to_owned()
            },
            SchemaError::MissingRepr => {
                proof {
                    reveal_strlit("Enum must declare a representation type");
                }
                "Enum must declare a representation type".to_owned()
            },
            SchemaError::DuplicateDiscriminant => {
                proof {
                    reveal_strlit("Two variants share one discriminant");
                }
                "Two variants share one discriminant".to_owned()
            },
            SchemaError::DiscriminantOutOfRange => {
                proof {
                    reveal_strlit("Discriminant does not fit the representation type");
                }
                "Discriminant does not fit the representation type".to_owned()
            },
        }
    }
}

/// A predicate with every field name resolved to the field's index.
#[derive(Debug)]
pub enum CompiledPred {
    Const(bool),
    Field(usize),
    EqUint(usize, u64),
    EqInt(usize, i64),
    And(Box<CompiledPred>, Box<CompiledPred>),
    Or(Box<CompiledPred>, Box<CompiledPred>),
    Not(Box<CompiledPred>),
}

/// A directive with its sibling reference resolved to a field index.
#[derive(Debug)]
pub enum CompiledDirective {
    /// No directive: the field is encoded and decoded unconditionally.
    Plain,
    Skip,
    Require(usize),
    IfPresent(usize),
    Satisfy(CompiledPred),
}

/// One resolved field: its declared type and resolved directive.
#[derive(Debug)]
pub struct CompiledField {
    pub ty: FieldType,
    pub directive: CompiledDirective,
}

/// One resolved variant: its inferred or explicit discriminant and payload.
#[derive(Debug)]
pub struct CompiledVariant {
    pub discriminant: i128,
    pub fields: Vec<CompiledField>,
}

/// The schema compiler's output: a record description with every directive
/// resolved, consumed by the runtime encode and decode procedures.
#[derive(Debug)]
pub enum CompiledRecord {
    Struct { fields: Vec<CompiledField> },
    Enum { repr: ReprType, variants: Vec<CompiledVariant> },
}

/// The byte width of a representation type on the wire.
pub open spec fn repr_size(r: ReprType) -> nat {
    match r {
        ReprType::U8 => 1,
        ReprType::U16 => 2,
        ReprType::U32 => 4,
        ReprType::U64 => 8,
        ReprType::U128 => 16,
        ReprType::I8 => 1,
        ReprType::I16 => 2,
        ReprType::I32 => 4,
        ReprType::I64 => 8,
        ReprType::I128 => 16,
    }
}

/// The smallest discriminant a representation type can carry.
pub open spec fn repr_min(r: ReprType) -> int {
    match r {
        ReprType::U8 => 0,
        ReprType::U16 => 0,
        ReprType::U32 => 0,
        ReprType::U64 => 0,
        ReprType::U128 => 0,
        ReprType::I8 => -0x80,
        ReprType::I16 => -0x8000,
        ReprType::I32 => -0x80000000,
        ReprType::I64 => -0x8000000000000000,
        ReprType::I128 => -0x80000000000000000000000000000000,
    }
}

/// The largest discriminant a representation type can carry, bounded by the
/// signed 128-bit host form discriminants are held in.
pub open spec fn repr_max(r: ReprType) -> int {
    match r {
        ReprType::U8 => 0xFF,
        ReprType::U16 => 0xFFFF,
        ReprType::U32 => 0xFFFFFFFF,
        ReprType::U64 => 0xFFFFFFFFFFFFFFFF,
        ReprType::U128 => 0x7FFFFFFFFFFFFFFFFFFFFFFFFFFFFFFF,
        ReprType::I8 => 0x7F,
        ReprType::I16 => 0x7FFF,
        ReprType::I32 => 0x7FFFFFFF,
        ReprType::I64 => 0x7FFFFFFFFFFFFFFF,
        ReprType::I128 => 0x7FFFFFFFFFFFFFFFFFFFFFFFFFFFFFFF,
    }
}

/// The index of the first field among the first `upto` called `n`, if any.
pub open spec fn name_index_upto(fields: Seq<FieldSpec>, n: Seq<char>, upto: int) -> Option<int>
    decreases upto,
{
    if upto <= 0 {
        None
    } else {
        match name_index_upto(fields, n, upto - 1) {
            Some(j) => Some(j),
            None => if fields[upto - 1].name@ == n {
                Some(upto - 1)
            } else {
                None
            },
        }
    }
}

/// Whether `n` resolves, among the fields before `i`, to an optional field.
pub open spec fn sibling_ok(fields: Seq<FieldSpec>, n: Seq<char>, i: int) -> bool {
    match name_index_upto(fields, n, i) {
        Some(j) => fields[j].ty is Optional,
        None => false,
    }
}

/// Whether every field name in `p` resolves among the fields before `i`.
pub open spec fn pred_valid(fields: Seq<FieldSpec>, i: int, p: Predicate) -> bool
    decreases p,
{
    match p {
        Predicate::Const(_) => true,
        Predicate::Field(n) => name_index_upto(fields, n@, i) is Some,
        Predicate::EqUint(n, _) => name_index_upto(fields, n@, i) is Some,
        Predicate::EqInt(n, _) => name_index_upto(fields, n@, i) is Some,
        Predicate::And(a, b) => pred_valid(fields, i, *a) && pred_valid(fields, i, *b),
        Predicate::Or(a, b) => pred_valid(fields, i, *a) && pred_valid(fields, i, *b),
        Predicate::Not(a) => pred_valid(fields, i, *a),
    }
}

/// Whether the compiled predicate is `p` with every name resolved to its
/// field index.
pub open spec fn pred_resolves(fields: Seq<FieldSpec>, i: int, p: Predicate, c: CompiledPred) -> bool
    decreases p,
{
    match (p, c) {
        (Predicate::Const(b), CompiledPred::Const(cb)) => b == cb,
        (Predicate::Field(n), CompiledPred::Field(j)) => name_index_upto(fields, n@, i) == Some(
            j as int,
        ),
        (Predicate::EqUint(n, k), CompiledPred::EqUint(j, ck)) => name_index_upto(fields, n@, i)
            == Some(j as int) && k == ck,
        (Predicate::EqInt(n, k), CompiledPred::EqInt(j, ck)) => name_index_upto(fields, n@, i)
            == Some(j as int) && k == ck,
        (Predicate::And(a, b), CompiledPred::And(ca, cb)) => pred_resolves(fields, i, *a, *ca)
            && pred_resolves(fields, i, *b, *cb),
        (Predicate::Or(a, b), CompiledPred::Or(ca, cb)) => pred_resolves(fields, i, *a, *ca)
            && pred_resolves(fields, i, *b, *cb),
        (Predicate::Not(a), CompiledPred::Not(ca)) => pred_resolves(fields, i, *a, *ca),
        _ => false,
    }
}

/// Whether one field's description is acceptable at index `i`: at most one
/// directive, conditional directives only on named optional fields whose
/// sibling references resolve to earlier optional fields.
pub open spec fn field_spec_valid(fields: Seq<FieldSpec>, named: bool, i: int) -> bool {
    let ds = fields[i].directives@;
    ds.len() <= 1 && (ds.len() == 1 ==> match ds[0] {
        Directive::Skip => true,
        Directive::Require(n) => named && fields[i].ty is Optional && sibling_ok(fields, n@, i),
        Directive::IfPresent(n) => named && fields[i].ty is Optional && sibling_ok(fields, n@, i),
        Directive::Satisfy(p) => named && fields[i].ty is Optional && pred_valid(fields, i, p),
    })
}

/// Whether a variant-payload field is acceptable: positional fields admit
/// only the skip directive.
pub open spec fn payload_field_valid(fields: Seq<FieldSpec>, i: int) -> bool {
    let ds = fields[i].directives@;
    ds.len() <= 1 && (ds.len() == 1 ==> ds[0] is Skip)
}

/// The discriminant of variant `i` after inference: the explicit literal, or
/// the previous variant's discriminant plus one, or zero for the first
/// variant.
pub open spec fn resolved_discriminant(variants: Seq<VariantSpec>, i: int) -> int
    decreases i,
{
    match variants[i].discriminant {
        Some(d) => d as int,
        None => if i <= 0 {
            0
        } else {
            resolved_discriminant(variants, i - 1) + 1
        },
    }
}

/// Whether a whole record description is acceptable to the schema compiler.
pub open spec fn record_spec_valid(s: RecordSpec) -> bool {
    match s {
        RecordSpec::Struct { named, fields } => fields@.len() >= 1 && (forall|i: int|
            0 <= i < fields@.len() ==> #[trigger] field_spec_valid(fields@, named, i)),
        RecordSpec::Enum { repr, variants } => match repr {
            Some(rt) => variants@.len() >= 1 && (forall|i: int|
                0 <= i < variants@.len() ==> (forall|j: int|
                    0 <= j < #[trigger] variants@[i].fields@.len() ==> #[trigger] payload_field_valid(
                        variants@[i].fields@,
                        j,
                    ))) && (forall|i: int|
                0 <= i < variants@.len() ==> repr_min(rt) <= #[trigger] resolved_discriminant(
                    variants@,
                    i,
                ) <= repr_max(rt)) && (forall|i: int, j: int|
                0 <= i < j < variants@.len() ==> #[trigger] resolved_discriminant(variants@, i)
                    != #[trigger] resolved_discriminant(variants@, j)),
            None => false,
        },
    }
}

/// Whether every index inside a compiled predicate points before `i`.
pub open spec fn pred_wf(p: CompiledPred, i: int) -> bool
    decreases p,
{
    match p {
        CompiledPred::Const(_) => true,
        CompiledPred::Field(j) => j < i,
        CompiledPred::EqUint(j, _) => j < i,
        CompiledPred::EqInt(j, _) => j < i,
        CompiledPred::And(a, b) => pred_wf(*a, i) && pred_wf(*b, i),
        CompiledPred::Or(a, b) => pred_wf(*a, i) && pred_wf(*b, i),
        CompiledPred::Not(a) => pred_wf(*a, i),
    }
}

/// Whether every field of a compiled payload is unconditional: positional
/// variant payloads admit no directive but skip.
pub open spec fn payload_shaped(fs: Seq<CompiledField>) -> bool {
    forall|j: int|
        0 <= j < fs.len() ==> ((#[trigger] fs[j].directive) is Plain || fs[j].directive is Skip)
}

/// The well-formedness of one compiled field at index `i`: conditional
/// directives sit on optional fields and reference only earlier fields.
pub open spec fn compiled_field_wf(f: CompiledField, i: int) -> bool {
    match f.directive {
        CompiledDirective::Plain => true,
        CompiledDirective::Skip => true,
        CompiledDirective::Require(j) => j < i && f.ty is Optional,
        CompiledDirective::IfPresent(j) => j < i && f.ty is Optional,
        CompiledDirective::Satisfy(p) => pred_wf(p, i) && f.ty is Optional,
    }
}

/// The well-formedness of a compiled field list.
pub open spec fn compiled_fields_wf(fs: Seq<CompiledField>) -> bool {
    forall|i: int| 0 <= i < fs.len() ==> #[trigger] compiled_field_wf(fs[i], i)
}

/// The well-formedness of a compiled record: what the schema compiler
/// establishes and the runtime procedures rely on.
pub open spec fn compiled_wf(c: CompiledRecord) -> bool {
    match c {
        CompiledRecord::Struct { fields } => fields@.len() >= 1 && compiled_fields_wf(fields@),
        CompiledRecord::Enum { repr, variants } => variants@.len() >= 1 && (forall|i: int|
            0 <= i < variants@.len() ==> compiled_fields_wf(#[trigger] variants@[i].fields@)
                && payload_shaped(variants@[i].fields@)) && (forall|i: int|
            0 <= i < variants@.len() ==> repr_min(repr) <= #[trigger] variants@[i].discriminant
                <= repr_max(repr)) && (forall|i: int, j: int|
            0 <= i < j < variants@.len() ==> #[trigger] variants@[i].discriminant
                != #[trigger] variants@[j].discriminant),
    }
}

/// Whether compiled field `c` resolves the description of field `i`.
pub open spec fn field_resolves(fields: Seq<FieldSpec>, i: int, c: CompiledField) -> bool {
    c.ty == fields[i].ty && {
        let ds = fields[i].directives@;
        if ds.len() == 0 {
            c.directive is Plain
        } else {
            match (ds[0], c.directive) {
                (Directive::Skip, CompiledDirective::Skip) => true,
                (Directive::Require(n), CompiledDirective::Require(j)) => name_index_upto(
                    fields,
                    n@,
                    i,
                ) == Some(j as int),
                (Directive::IfPresent(n), CompiledDirective::IfPresent(j)) => name_index_upto(
                    fields,
                    n@,
                    i,
                ) == Some(j as int),
                (Directive::Satisfy(p), CompiledDirective::Satisfy(cp)) => pred_resolves(
                    fields,
                    i,
                    p,
                    cp,
                ),
                _ => false,
            }
        }
    }
}

/// Whether the compiled record is the resolution of the description: same
/// field types in the same order, directives resolved to indices, and every
/// variant's discriminant the explicit or inferred one.
pub open spec fn compiles_to(s: RecordSpec, c: CompiledRecord) -> bool {
    match (s, c) {
        (
            RecordSpec::Struct { named, fields },
            CompiledRecord::Struct { fields: cf },
        ) => cf@.len() == fields@.len() && (forall|i: int|
            0 <= i < fields@.len() ==> #[trigger] field_resolves(fields@, i, cf@[i])),
        (
            RecordSpec::Enum { repr, variants },
            CompiledRecord::Enum { repr: crepr, variants: cv },
        ) => repr == Some(crepr) && cv@.len() == variants@.len() && (forall|i: int|
            0 <= i < variants@.len() ==> #[trigger] cv@[i].discriminant == resolved_discriminant(
                variants@,
                i,
            )) && (forall|i: int|
            0 <= i < variants@.len() ==> #[trigger] cv@[i].fields@.len()
                == variants@[i].fields@.len() && (forall|j: int|
                0 <= j < variants@[i].fields@.len() ==> #[trigger] field_resolves(
                    variants@[i].fields@,
                    j,
                    cv@[i].fields@[j],
                ))),
        _ => false,
    }
}

/// Finds the first field among the first `upto` whose name is `n`.
fn find_field(fields: &Vec<FieldSpec>, n: &String, upto: usize) -> (r: Option<usize>)
    requires
        upto <= fields@.len(),
    ensures
        match r {
            Some(j) => name_index_upto(fields@, n@, upto as int) == Some(j as int),
            None => name_index_upto(fields@, n@, upto as int) is None,
        },
{
    let mut i: usize = 0;
    while i < upto
        invariant
            i <= upto <= fields@.len(),
            name_index_upto(fields@, n@, i as int) is None,
        decreases upto - i,
    {
        if fields[i].name == *n {
            proof {
                lemma_name_index_extend(fields@, n@, i as int);
                lemma_name_index_stable(fields@, n@, i as int + 1, upto as int);
            }
            return Some(i);
        }
        proof {
            lemma_name_index_extend(fields@, n@, i as int);
        }
        i = i + 1;
    }
    None
}

/// Extending the searched prefix by one field resolves the name exactly when
/// the prefix already resolved it or the new field carries it.
proof fn lemma_name_index_extend(fields: Seq<FieldSpec>, n: Seq<char>, i: int)
    requires
        0 <= i,
        name_index_upto(fields, n, i) is None,
    ensures
        fields[i].name@ == n ==> name_index_upto(fields, n, i + 1) == Some(i),
        fields[i].name@ != n ==> name_index_upto(fields, n, i + 1) is None,
{
}

/// A resolved name points at an earlier field that carries it.
proof fn lemma_name_index_bounds(fields: Seq<FieldSpec>, n: Seq<char>, upto: int)
    ensures
        name_index_upto(fields, n, upto) matches Some(j) ==> 0 <= j < upto && (j
            < fields.len() ==> fields[j].name@ == n),
    decreases upto,
{
    if upto > 0 {
        lemma_name_index_bounds(fields, n, upto - 1);
    }
}

/// Once a name resolves in a prefix, widening the prefix keeps the result.
proof fn lemma_name_index_stable(fields: Seq<FieldSpec>, n: Seq<char>, k: int, m: int)
    requires
        0 <= k <= m,
        name_index_upto(fields, n, k) is Some,
    ensures
        name_index_upto(fields, n, m) == name_index_upto(fields, n, k),
    decreases m - k,
{
    if k < m {
        lemma_name_index_stable(fields, n, k, m - 1);
    }
}

/// Resolves every name in `p` among the first `upto` fields.
fn compile_pred(fields: &Vec<FieldSpec>, upto: usize, p: &Predicate) -> (r: Result<
    CompiledPred,
    SchemaError,
>)
    requires
        upto <= fields@.len(),
    ensures
        match r {
            Ok(c) => pred_valid(fields@, upto as int, *p) && pred_resolves(
                fields@,
                upto as int,
                *p,
                c,
            ) && pred_wf(c, upto as int),
            Err(e) => !pred_valid(fields@, upto as int, *p) && e == SchemaError::UnknownSibling,
        },
    decreases *p,
{
    match p {
        Predicate::Const(b) => Ok(CompiledPred::Const(*b)),
        Predicate::Field(n) => match find_field(fields, n, upto) {
            Some(j) => {
                proof {
                    lemma_name_index_bounds(fields@, n@, upto as int);
                }
                Ok(CompiledPred::Field(j))
            },
            None => Err(SchemaError::UnknownSibling),
        },
        Predicate::EqUint(n, k) => match find_field(fields, n, upto) {
            Some(j) => {
                proof {
                    lemma_name_index_bounds(fields@, n@, upto as int);
                }
                Ok(CompiledPred::EqUint(j, *k))
            },
            None => Err(SchemaError::UnknownSibling),
        },
        Predicate::EqInt(n, k) => match find_field(fields, n, upto) {
            Some(j) => {
                proof {
                    lemma_name_index_bounds(fields@, n@, upto as int);
                }
                Ok(CompiledPred::EqInt(j, *k))
            },
            None => Err(SchemaError::UnknownSibling),
        },
        Predicate::And(a, b) => {
            let ca = match compile_pred(fields, upto, &**a) {
                Ok(c) => c,
                Err(e) => {
                    return Err(e);
                },
            };
            let cb = match compile_pred(fields, upto, &**b) {
                Ok(c) => c,
                Err(e) => {
                    return Err(e);
                },
            };
            Ok(CompiledPred::And(Box::new(ca), Box::new(cb)))
        },
        Predicate::Or(a, b) => {
            let ca = match compile_pred(fields, upto, &**a) {
                Ok(c) => c,
                Err(e) => {
                    return Err(e);
                },
            };
            let cb = match compile_pred(fields, upto, &**b) {
                Ok(c) => c,
                Err(e) => {
                    return Err(e);
                },
            };
            Ok(CompiledPred::Or(Box::new(ca), Box::new(cb)))
        },
        Predicate::Not(a) => {
            let ca = match compile_pred(fields, upto, &**a) {
                Ok(c) => c,
                Err(e) => {
                    return Err(e);
                },
            };
            Ok(CompiledPred::Not(Box::new(ca)))
        },
    }
}

/// Resolves one field's directives at index `i`; `named` tells whether the
/// surrounding struct has usable field names, and `payload_only` restricts
/// the field to the skip directive, as variant payloads demand.
fn compile_field(fields: &Vec<FieldSpec>, named: bool, payload_only: bool, i: usize) -> (r: Result<
    CompiledField,
    SchemaError,
>)
    requires
        i < fields@.len(),
    ensures
        match r {
            Ok(c) => {
                &&& !payload_only ==> field_spec_valid(fields@, named, i as int)
                &&& payload_only ==> payload_field_valid(fields@, i as int)
                &&& field_resolves(fields@, i as int, c)
                &&& compiled_field_wf(c, i as int)
                &&& payload_only ==> (c.directive is Plain || c.directive is Skip)
            },
            Err(e) => {
                &&& !payload_only ==> !field_spec_valid(fields@, named, i as int)
                &&& payload_only ==> !payload_field_valid(fields@, i as int)
            },
        },
{
    let f = &fields[i];
    if f.directives.len() == 0 {
        return Ok(CompiledField { ty: f.ty, directive: CompiledDirective::Plain });
    }
    if f.directives.len() > 1 {
        return Err(SchemaError::MultipleDirectives);
    }
    match &f.directives[0] {
        Directive::Skip => Ok(CompiledField { ty: f.ty, directive: CompiledDirective::Skip }),
        Directive::Require(n) => {
            if payload_only || !named || !matches!(f.ty, FieldType::Optional(_)) {
                return Err(SchemaError::BadDirectivePlacement);
            }
            match find_field(fields, n, i) {
                Some(j) => {
                    proof {
                        lemma_name_index_bounds(fields@, n@, i as int);
                    }
                    if matches!(fields[j].ty, FieldType::Optional(_)) {
                        Ok(CompiledField { ty: f.ty, directive: CompiledDirective::Require(j) })
                    } else {
                        Err(SchemaError::UnknownSibling)
                    }
                },
                None => Err(SchemaError::UnknownSibling),
            }
        },
        Directive::IfPresent(n) => {
            if payload_only || !named || !matches!(f.ty, FieldType::Optional(_)) {
                return Err(SchemaError::BadDirectivePlacement);
            }
            match find_field(fields, n, i) {
                Some(j) => {
                    proof {
                        lemma_name_index_bounds(fields@, n@, i as int);
                    }
                    if matches!(fields[j].ty, FieldType::Optional(_)) {
                        Ok(CompiledField { ty: f.ty, directive: CompiledDirective::IfPresent(j) })
                    } else {
                        Err(SchemaError::UnknownSibling)
                    }
                },
                None => Err(SchemaError::UnknownSibling),
            }
        },
        Directive::Satisfy(p) => {
            if payload_only || !named || !matches!(f.ty, FieldType::Optional(_)) {
                return Err(SchemaError::BadDirectivePlacement);
            }
            match compile_pred(fields, i, p) {
                Ok(cp) => Ok(CompiledField { ty: f.ty, directive: CompiledDirective::Satisfy(cp) }),
                Err(e) => Err(e),
            }
        },
    }
}

/// Resolves a whole field list.
fn compile_fields(fields: &Vec<FieldSpec>, named: bool, payload_only: bool) -> (r: Result<
    Vec<CompiledField>,
    SchemaError,
>)
    ensures
        match r {
            Ok(cs) => {
                &&& cs@.len() == fields@.len()
                &&& forall|i: int|
                    0 <= i < fields@.len() ==> #[trigger] field_resolves(fields@, i, cs@[i])
                &&& compiled_fields_wf(cs@)
                &&& !payload_only ==> forall|i: int|
                    0 <= i < fields@.len() ==> #[trigger] field_spec_valid(fields@, named, i)
                &&& payload_only ==> forall|i: int|
                    0 <= i < fields@.len() ==> #[trigger] payload_field_valid(fields@, i)
                &&& payload_only ==> payload_shaped(cs@)
            },
            Err(e) => {
                &&& !payload_only ==> exists|i: int|
                    0 <= i < fields@.len() && !(#[trigger] field_spec_valid(fields@, named, i))
                &&& payload_only ==> exists|i: int|
                    0 <= i < fields@.len() && !(#[trigger] payload_field_valid(fields@, i))
            },
        },
{
    let mut out: Vec<CompiledField> = Vec::new();
    let mut i: usize = 0;
    let n = fields.len();
    while i < n
        invariant
            n == fields@.len(),
            i <= n,
            out@.len() == i,
            forall|k: int| 0 <= k < i ==> #[trigger] field_resolves(fields@, k, out@[k]),
            compiled_fields_wf(out@),
            !payload_only ==> forall|k: int|
                0 <= k < i ==> #[trigger] field_spec_valid(fields@, named, k),
            payload_only ==> forall|k: int|
                0 <= k < i ==> #[trigger] payload_field_valid(fields@, k),
            payload_only ==> payload_shaped(out@),
        decreases n - i,
    {
        match compile_field(fields, named, payload_only, i) {
            Ok(c) => {
                out.push(c);
                proof {
                    assert(compiled_fields_wf(out@));
                }
            },
            Err(e) => {
                return Err(e);
            },
        }
        i = i + 1;
    }
    Ok(out)
}

/// The largest discriminant any representation type can carry in the signed
/// 128-bit host form.
fn repr_bounds(rt: ReprType) -> (r: (i128, i128))
    ensures
        r.0 as int == repr_min(rt),
        r.1 as int == repr_max(rt),
{
    match rt {
        ReprType::U8 => (0, 0xFF),
        ReprType::U16 => (0, 0xFFFF),
        ReprType::U32 => (0, 0xFFFFFFFF),
        ReprType::U64 => (0, 0xFFFFFFFFFFFFFFFF),
        ReprType::U128 => (0, 0x7FFFFFFFFFFFFFFFFFFFFFFFFFFFFFFF),
        ReprType::I8 => (-0x80, 0x7F),
        ReprType::I16 => (-0x8000, 0x7FFF),
        ReprType::I32 => (-0x80000000, 0x7FFFFFFF),
        ReprType::I64 => (-0x8000000000000000, 0x7FFFFFFFFFFFFFFF),
        ReprType::I128 => (
            -0x80000000000000000000000000000000,
            0x7FFFFFFFFFFFFFFFFFFFFFFFFFFFFFFF,
        ),
    }
}

/// Validates a record description and resolves it: names become indices and
/// every variant's discriminant is made explicit — the given literal, or the
/// previous discriminant plus one, or zero for the first variant.
///
/// Compilation succeeds exactly on the descriptions [`record_spec_valid`]
/// accepts, and its output resolves the description per [`compiles_to`].
#[verifier::loop_isolation(false)]
pub fn compile_record(s: &RecordSpec) -> (r: Result<CompiledRecord, SchemaError>)
    ensures
        match r {
            Ok(c) => record_spec_valid(*s) && compiles_to(*s, c) && compiled_wf(c),
            Err(e) => !record_spec_valid(*s),
        },
{
    match s {
        RecordSpec::Struct { named, fields } => {
            if fields.len() == 0 {
                return Err(SchemaError::EmptyRecord);
            }
            match compile_fields(fields, *named, false) {
                Ok(cs) => Ok(CompiledRecord::Struct { fields: cs }),
                Err(e) => Err(e),
            }
        },
        RecordSpec::Enum { repr, variants } => {
            let rt = match repr {
                Some(rt) => *rt,
                None => {
                    return Err(SchemaError::MissingRepr);
                },
            };
            if variants.len() == 0 {
                return Err(SchemaError::EmptyRecord);
            }
            let (lo, hi) = repr_bounds(rt);
            let mut out: Vec<CompiledVariant> = Vec::new();
            let mut i: usize = 0;
            let n = variants.len();
            while i < n
                invariant
                    n == variants@.len(),
                    i <= n,
                    out@.len() == i,
                    lo as int == repr_min(rt),
                    hi as int == repr_max(rt),
                    forall|k: int|
                        0 <= k < i ==> #[trigger] out@[k].discriminant == resolved_discriminant(
                            variants@,
                            k,
                        ),
                    forall|k: int|
                        0 <= k < i ==> repr_min(rt) <= #[trigger] out@[k].discriminant <= repr_max(
                            rt,
                        ),
                    forall|k: int|
                        0 <= k < i ==> compiled_fields_wf(#[trigger] out@[k].fields@) && out@[k].fields@.len()
                            == variants@[k].fields@.len(),
                    forall|k: int|
                        #![trigger out@[k].fields]
                        0 <= k < i ==> forall|j: int|
                            0 <= j < variants@[k].fields@.len() ==> #[trigger] field_resolves(
                                variants@[k].fields@,
                                j,
                                out@[k].fields@[j],
                            ),
                    forall|k: int|
                        #![trigger variants@[k].fields]
                        0 <= k < i ==> forall|j: int|
                            0 <= j < variants@[k].fields@.len() ==> #[trigger] payload_field_valid(
                                variants@[k].fields@,
                                j,
                            ),
                    forall|k: int|
                        0 <= k < i ==> payload_shaped(#[trigger] out@[k].fields@),
                decreases n - i,
            {
                let d: i128 = match &variants[i].discriminant {
                    Some(d) => *d,
                    None => {
                        if i == 0 {
                            0
                        } else {
                            let prev = out[i - 1].discriminant;
                            if prev == i128::MAX {
                                proof {
                                    assert(resolved_discriminant(variants@, i as int) == prev
                                        + 1);
                                    assert(!(repr_min(rt) <= resolved_discriminant(
                                        variants@,
                                        i as int,
                                    ) <= repr_max(rt)));
                                }
                                return Err(SchemaError::DiscriminantOutOfRange);
                            }
                            prev + 1
                        }
                    },
                };
                proof {
                    assert(d as int == resolved_discriminant(variants@, i as int));
                }
                if d < lo || d > hi {
                    proof {
                        assert(!(repr_min(rt) <= resolved_discriminant(variants@, i as int)
                            <= repr_max(rt)));
                    }
                    return Err(SchemaError::DiscriminantOutOfRange);
                }
                let cf = match compile_fields(&variants[i].fields, false, true) {
                    Ok(cf) => cf,
                    Err(e) => {
                        proof {
                            let j = choose|j: int|
                                0 <= j < variants@[i as int].fields@.len() && !payload_field_valid(
                                    variants@[i as int].fields@,
                                    j,
                                );
                            assert(!payload_field_valid(variants@[i as int].fields@, j));
                        }
                        return Err(e);
                    },
                };
                let ghost gcf = cf@;
                out.push(CompiledVariant { discriminant: d, fields: cf });
                proof {
                    assert(out@[i as int].fields@ == gcf);
                }
                i = i + 1;
            }
            // every discriminant is resolved and in range; now demand they
            // are pairwise distinct
            let mut a: usize = 0;
            while a < n
                invariant
                    n == out@.len(),
                    a <= n,
                    forall|x: int, y: int|
                        0 <= x < y < out@.len() && x < a ==> #[trigger] out@[x].discriminant
                            != #[trigger] out@[y].discriminant,
                decreases n - a,
            {
                let mut b: usize = a + 1;
                while b < n
                    invariant
                        n == out@.len(),
                        a < b || (a + 1 == b),
                        a < n,
                        a + 1 <= b <= n,
                        forall|y: int|
                            a < y < b ==> #[trigger] out@[y].discriminant != out@[a as int].discriminant,
                    decreases n - b,
                {
                    if out[a].discriminant == out[b].discriminant {
                        proof {
                            assert(resolved_discriminant(variants@, a as int)
                                == resolved_discriminant(variants@, b as int));
                        }
                        return Err(SchemaError::DuplicateDiscriminant);
                    }
                    b = b + 1;
                }
                a = a + 1;
            }
            proof {
                assert forall|x: int, y: int|
                    0 <= x < y < variants@.len() implies #[trigger] resolved_discriminant(
                    variants@,
                    x,
                ) != #[trigger] resolved_discriminant(variants@, y) by {
                    assert(out@[x].discriminant == resolved_discriminant(variants@, x));
                    assert(out@[y].discriminant == resolved_discriminant(variants@, y));
                }
                assert forall|k: int| 0 <= k < variants@.len() implies repr_min(rt)
                    <= #[trigger] resolved_discriminant(variants@, k) <= repr_max(rt) by {
                    assert(out@[k].discriminant == resolved_discriminant(variants@, k));
                }
            }
            Ok(CompiledRecord::Enum { repr: rt, variants: out })
        },
    }
}

} // verus!
