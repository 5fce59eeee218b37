//! Runtime values of Side programs and the operators on them.
//!
//! Fractions are IEEE-754 binary64 numbers. The library keeps them as their
//! bit pattern and never computes with them itself: arithmetic, comparison
//! and decimal rendering of fractions are handed to the host as
//! [`FloatTask`]s and [`Piece`] lists (see the evaluation machine).

use vstd::prelude::*;
use vstd::string::*;
use crate::text::{int_text, int_to_string, concat, chars_of, text_eq};
use crate::error::{RuntimeError, MErr};

verus! {

/// A value of the Side language.
pub enum Value {
    Whole(i64),
    /// A binary64 number, held as its bit pattern.
    Fraction(u64),
    String(String),
    Bool(bool),
    /// The `none` value.
    Nil,
    /// An instance of a `form`; field names are distinct.
    Object { form_name: String, fields: Vec<Field> },
    List(Vec<Value>),
}

/// One named field of an object.
pub struct Field {
    pub name: String,
    pub value: Value,
}

/// The mathematical content of a [`Value`].
pub enum VVal {
    Whole(i64),
    Fraction(u64),
    Str(Seq<char>),
    Bool(bool),
    Nil,
    Object(Seq<char>, Seq<VField>),
    List(Seq<VVal>),
}

/// The mathematical content of a [`Field`].
pub struct VField {
    pub name: Seq<char>,
    pub value: VVal,
}

pub open spec fn value_view(v: Value) -> VVal
    decreases v, 0nat,
{
    match v {
        Value::Whole(n) => VVal::Whole(n),
        Value::Fraction(b) => VVal::Fraction(b),
        Value::String(s) => VVal::Str(s@),
        Value::Bool(b) => VVal::Bool(b),
        Value::Nil => VVal::Nil,
        Value::Object { form_name, fields } => VVal::Object(form_name@, fields_view(fields@)),
        Value::List(items) => VVal::List(values_view(items@)),
    }
}

pub open spec fn values_view(vs: Seq<Value>) -> Seq<VVal>
    decreases vs, vs.len(),
{
    if vs.len() == 0 {
        Seq::empty()
    } else {
        values_view(vs.drop_last()).push(value_view(vs.last()))
    }
}

pub open spec fn fields_view(fs: Seq<Field>) -> Seq<VField>
    decreases fs, fs.len(),
{
    if fs.len() == 0 {
        Seq::empty()
    } else {
        fields_view(fs.drop_last()).push(
            VField { name: fs.last().name@, value: value_view(fs.last().value) },
        )
    }
}

pub proof fn lemma_values_view_update(vs: Seq<Value>, i: int, v: Value)
    requires
        0 <= i < vs.len(),
    ensures
        values_view(vs.update(i, v)) == values_view(vs).update(i, value_view(v)),
{
    lemma_values_view(vs);
    lemma_values_view(vs.update(i, v));
    assert(values_view(vs.update(i, v)) =~= values_view(vs).update(i, value_view(v)));
}

pub proof fn lemma_fields_view_update(fs: Seq<Field>, i: int, f: Field)
    requires
        0 <= i < fs.len(),
    ensures
        fields_view(fs.update(i, f)) == fields_view(fs).update(
            i,
            VField { name: f.name@, value: value_view(f.value) },
        ),
{
    lemma_fields_view(fs);
    lemma_fields_view(fs.update(i, f));
    assert(fields_view(fs.update(i, f)) =~= fields_view(fs).update(
        i,
        VField { name: f.name@, value: value_view(f.value) },
    ));
}

impl View for Value {
    type V = VVal;

    open spec fn view(&self) -> VVal {
        value_view(*self)
    }
}

pub proof fn lemma_values_view(vs: Seq<Value>)
    ensures
        values_view(vs).len() == vs.len(),
        forall|i: int| 0 <= i < vs.len() ==> #[trigger] values_view(vs)[i] == value_view(vs[i]),
    decreases vs.len(),
{
    if vs.len() > 0 {
        lemma_values_view(vs.drop_last());
    }
}

pub proof fn lemma_fields_view(fs: Seq<Field>)
    ensures
        fields_view(fs).len() == fs.len(),
        forall|i: int|
            0 <= i < fs.len() ==> #[trigger] fields_view(fs)[i] == (VField {
                name: fs[i].name@,
                value: value_view(fs[i].value),
            }),
    decreases fs.len(),
{
    if fs.len() > 0 {
        lemma_fields_view(fs.drop_last());
    }
}

pub proof fn lemma_values_view_push(vs: Seq<Value>, v: Value)
    ensures
        values_view(vs.push(v)) == values_view(vs).push(value_view(v)),
{
    assert(vs.push(v).drop_last() =~= vs);
}

pub proof fn lemma_fields_view_push(fs: Seq<Field>, f: Field)
    ensures
        fields_view(fs.push(f)) == fields_view(fs).push(VField { name: f.name@, value: value_view(f.value) }),
{
    assert(fs.push(f).drop_last() =~= fs);
}

/// A piece of rendered text: plain characters, or a fraction that the host
/// formats with Rust's `Display` (`{}`) or `Debug` (`{:?}`) for `f64`.
pub enum Piece {
    Text(String),
    Fraction(u64),
    FractionDebug(u64),
}

/// The mathematical content of a [`Piece`].
pub enum Chunk {
    Text(Seq<char>),
    Fraction(u64),
    FractionDebug(u64),
}

impl View for Piece {
    type V = Chunk;

    open spec fn view(&self) -> Chunk {
        match self {
            Piece::Text(s) => Chunk::Text(s@),
            Piece::Fraction(b) => Chunk::Fraction(*b),
            Piece::FractionDebug(b) => Chunk::FractionDebug(*b),
        }
    }
}

pub open spec fn chunks(ps: Seq<Piece>) -> Seq<Chunk> {
    ps.map_values(|p: Piece| p@)
}

pub open spec fn text_chunk(s: Seq<char>) -> Seq<Chunk> {
    seq![Chunk::Text(s)]
}

/// How many of the chunks are fractions.
pub open spec fn fraction_count(c: Seq<Chunk>) -> nat
    decreases c.len(),
{
    if c.len() == 0 {
        0
    } else {
        fraction_count(c.drop_last()) + if c.last() is Text {
            0nat
        } else {
            1nat
        }
    }
}

/// The text of the chunks, where `ts` gives the texts of their fractions,
/// in order.
pub open spec fn spliced(c: Seq<Chunk>, ts: Seq<Seq<char>>) -> Seq<char>
    decreases c.len(),
{
    if c.len() == 0 {
        Seq::empty()
    } else {
        match c.last() {
            Chunk::Text(t) => spliced(c.drop_last(), ts) + t,
            _ => spliced(c.drop_last(), ts.drop_last()) + ts.last(),
        }
    }
}

/// `Display` of a value, as chunks (`log` and string concatenation).
pub open spec fn display_chunks(v: VVal) -> Seq<Chunk>
    decreases v, 0nat,
{
    match v {
        VVal::Whole(n) => text_chunk(int_text(n as int)),
        VVal::Fraction(b) => seq![Chunk::Fraction(b)],
        VVal::Str(s) => text_chunk(s),
        VVal::Bool(b) => text_chunk(if b { "true"@ } else { "false"@ }),
        VVal::Nil => text_chunk("none"@),
        VVal::Object(form_name, fields) => text_chunk(form_name + " { "@) + fields_display(
            fields,
            fields.len(),
        ) + text_chunk(" }"@),
        VVal::List(items) => text_chunk("["@) + items_display(items, items.len()) + text_chunk(
            "]"@,
        ),
    }
}

/// The first `n` items, displayed and separated by `", "`.
pub open spec fn items_display(items: Seq<VVal>, n: nat) -> Seq<Chunk>
    decreases items, n,
{
    if n == 0 || n > items.len() {
        Seq::empty()
    } else {
        items_display(items, (n - 1) as nat) + (if n > 1 {
            text_chunk(", "@)
        } else {
            Seq::empty()
        }) + display_chunks(items[n - 1])
    }
}

/// The first `n` fields as `name: value`, separated by `", "`.
pub open spec fn fields_display(fields: Seq<VField>, n: nat) -> Seq<Chunk>
    decreases fields, n,
{
    if n == 0 || n > fields.len() {
        Seq::empty()
    } else {
        fields_display(fields, (n - 1) as nat) + (if n > 1 {
            text_chunk(", "@)
        } else {
            Seq::empty()
        }) + text_chunk(fields[n - 1].name + ": "@) + display_chunks(fields[n - 1].value)
    }
}

/// What `format!("{:?}", s)` gives for a string: the quoted, escaped text.
pub uninterp spec fn str_debug(s: Seq<char>) -> Seq<char>;

/// `format!("{:?}", s)`.
#[verifier::external_body]
pub(crate) fn debug_string(s: &str) -> (res: String)
    ensures
        res@ == str_debug(s@),
{
    format!("{:?}", s)
}

/// The derived `Debug` of a value, as chunks (used in type error messages).
pub open spec fn debug_chunks(v: VVal) -> Seq<Chunk>
    decreases v, 0nat,
{
    match v {
        VVal::Whole(n) => text_chunk("Whole("@ + int_text(n as int) + ")"@),
        VVal::Fraction(b) => text_chunk("Fraction("@) + seq![Chunk::FractionDebug(b)] + text_chunk(
            ")"@,
        ),
        VVal::Str(s) => text_chunk("String("@ + str_debug(s) + ")"@),
        VVal::Bool(b) => text_chunk(if b { "Bool(true)"@ } else { "Bool(false)"@ }),
        VVal::Nil => text_chunk("None"@),
        VVal::Object(form_name, fields) => text_chunk(
            "Object { form_name: "@ + str_debug(form_name) + ", fields: {"@,
        ) + fields_debug(fields, fields.len()) + text_chunk("} }"@),
        VVal::List(items) => text_chunk("List(["@) + items_debug(items, items.len()) + text_chunk(
            "])"@,
        ),
    }
}

pub open spec fn items_debug(items: Seq<VVal>, n: nat) -> Seq<Chunk>
    decreases items, n,
{
    if n == 0 || n > items.len() {
        Seq::empty()
    } else {
        items_debug(items, (n - 1) as nat) + (if n > 1 {
            text_chunk(", "@)
        } else {
            Seq::empty()
        }) + debug_chunks(items[n - 1])
    }
}

pub open spec fn fields_debug(fields: Seq<VField>, n: nat) -> Seq<Chunk>
    decreases fields, n,
{
    if n == 0 || n > fields.len() {
        Seq::empty()
    } else {
        fields_debug(fields, (n - 1) as nat) + (if n > 1 {
            text_chunk(", "@)
        } else {
            Seq::empty()
        }) + text_chunk(str_debug(fields[n - 1].name) + ": "@) + debug_chunks(fields[n - 1].value)
    }
}

pub fn text_piece(s: &str) -> (res: Vec<Piece>)
    ensures
        chunks(res@) == text_chunk(s@),
{
    let mut v: Vec<Piece> = Vec::new();
    v.push(Piece::Text(s.to_owned()));
    assert(chunks(v@) =~= text_chunk(s@));
    v
}

pub fn append_pieces(dst: &mut Vec<Piece>, src: Vec<Piece>)
    ensures
        chunks(final(dst)@) == chunks(old(dst)@) + chunks(src@),
{
    let mut src = src;
    let ghost d0 = dst@;
    let ghost s0 = src@;
    dst.append(&mut src);
    assert(chunks(dst@) =~= chunks(d0) + chunks(s0));
}

impl Value {
    /// The value rendered as by its `Display` implementation.
    pub fn display_pieces(&self) -> (res: Vec<Piece>)
        ensures
            chunks(res@) == display_chunks(self@),
        decreases *self, 0nat,
    {
        match self {
            Value::Whole(n) => text_piece(int_to_string(*n).as_str()),
            Value::Fraction(b) => {
                let mut v: Vec<Piece> = Vec::new();
                v.push(Piece::Fraction(*b));
                assert(chunks(v@) =~= seq![Chunk::Fraction(*b)]);
                v
            },
            Value::String(s) => text_piece(s.as_str()),
            Value::Bool(b) => if *b {
                text_piece("true")
            } else {
                text_piece("false")
            },
            Value::Nil => text_piece("none"),
            Value::Object { form_name, fields } => {
                proof {
                    lemma_fields_view(fields@);
                }
                let mut v = text_piece(concat(form_name.as_str(), " { ").as_str());
                let body = Value::fields_display_pieces(fields, fields.len());
                append_pieces(&mut v, body);
                append_pieces(&mut v, text_piece(" }"));
                v
            },
            Value::List(items) => {
                proof {
                    lemma_values_view(items@);
                }
                let mut v = text_piece("[");
                let body = Value::items_display_pieces(items, items.len());
                append_pieces(&mut v, body);
                append_pieces(&mut v, text_piece("]"));
                v
            },
        }
    }

    fn items_display_pieces(items: &Vec<Value>, n: usize) -> (res: Vec<Piece>)
        requires
            n <= items.len(),
        ensures
            chunks(res@) == items_display(values_view(items@), n as nat),
        decreases items@, n,
    {
        if n == 0 {
            let v: Vec<Piece> = Vec::new();
            assert(chunks(v@) =~= Seq::<Chunk>::empty());
            v
        } else {
            proof {
                lemma_values_view(items@);
            }
            let mut v = Value::items_display_pieces(items, n - 1);
            if n > 1 {
                append_pieces(&mut v, text_piece(", "));
            } else {
                assert(chunks(v@) =~= chunks(v@) + Seq::<Chunk>::empty());
            }
            append_pieces(&mut v, items[n - 1].display_pieces());
            v
        }
    }

    fn fields_display_pieces(fields: &Vec<Field>, n: usize) -> (res: Vec<Piece>)
        requires
            n <= fields.len(),
        ensures
            chunks(res@) == fields_display(fields_view(fields@), n as nat),
        decreases fields@, n,
    {
        if n == 0 {
            let v: Vec<Piece> = Vec::new();
            assert(chunks(v@) =~= Seq::<Chunk>::empty());
            v
        } else {
            proof {
                lemma_fields_view(fields@);
            }
            let mut v = Value::fields_display_pieces(fields, n - 1);
            if n > 1 {
                append_pieces(&mut v, text_piece(", "));
            } else {
                assert(chunks(v@) =~= chunks(v@) + Seq::<Chunk>::empty());
            }
            append_pieces(&mut v, text_piece(concat(fields[n - 1].name.as_str(), ": ").as_str()));
            append_pieces(&mut v, fields[n - 1].value.display_pieces());
            v
        }
    }
}


impl Value {
    /// The value rendered as by its derived `Debug` implementation.
    pub fn debug_pieces(&self) -> (res: Vec<Piece>)
        ensures
            chunks(res@) == debug_chunks(self@),
        decreases *self, 0nat,
    {
        match self {
            Value::Whole(n) => {
                let t = concat("Whole(", int_to_string(*n).as_str());
                text_piece(concat(t.as_str(), ")").as_str())
            },
            Value::Fraction(b) => {
                let mut v = text_piece("Fraction(");
                let mut f: Vec<Piece> = Vec::new();
                f.push(Piece::FractionDebug(*b));
                assert(chunks(f@) =~= seq![Chunk::FractionDebug(*b)]);
                append_pieces(&mut v, f);
                append_pieces(&mut v, text_piece(")"));
                v
            },
            Value::String(s) => {
                let t = concat("String(", debug_string(s.as_str()).as_str());
                text_piece(concat(t.as_str(), ")").as_str())
            },
            Value::Bool(b) => if *b {
                text_piece("Bool(true)")
            } else {
                text_piece("Bool(false)")
            },
            Value::Nil => text_piece("None"),
            Value::Object { form_name, fields } => {
                proof {
                    lemma_fields_view(fields@);
                }
                let t = concat("Object { form_name: ", debug_string(form_name.as_str()).as_str());
                let mut v = text_piece(concat(t.as_str(), ", fields: {").as_str());
                append_pieces(&mut v, Value::fields_debug_pieces(fields, fields.len()));
                append_pieces(&mut v, text_piece("} }"));
                v
            },
            Value::List(items) => {
                proof {
                    lemma_values_view(items@);
                }
                let mut v = text_piece("List([");
                append_pieces(&mut v, Value::items_debug_pieces(items, items.len()));
                append_pieces(&mut v, text_piece("])"));
                v
            },
        }
    }

    fn items_debug_pieces(items: &Vec<Value>, n: usize) -> (res: Vec<Piece>)
        requires
            n <= items.len(),
        ensures
            chunks(res@) == items_debug(values_view(items@), n as nat),
        decreases items@, n,
    {
        if n == 0 {
            let v: Vec<Piece> = Vec::new();
            assert(chunks(v@) =~= Seq::<Chunk>::empty());
            v
        } else {
            proof {
                lemma_values_view(items@);
            }
            let mut v = Value::items_debug_pieces(items, n - 1);
            if n > 1 {
                append_pieces(&mut v, text_piece(", "));
            } else {
                assert(chunks(v@) =~= chunks(v@) + Seq::<Chunk>::empty());
            }
            append_pieces(&mut v, items[n - 1].debug_pieces());
            v
        }
    }

    fn fields_debug_pieces(fields: &Vec<Field>, n: usize) -> (res: Vec<Piece>)
        requires
            n <= fields.len(),
        ensures
            chunks(res@) == fields_debug(fields_view(fields@), n as nat),
        decreases fields@, n,
    {
        if n == 0 {
            let v: Vec<Piece> = Vec::new();
            assert(chunks(v@) =~= Seq::<Chunk>::empty());
            v
        } else {
            proof {
                lemma_fields_view(fields@);
            }
            let mut v = Value::fields_debug_pieces(fields, n - 1);
            if n > 1 {
                append_pieces(&mut v, text_piece(", "));
            } else {
                assert(chunks(v@) =~= chunks(v@) + Seq::<Chunk>::empty());
            }
            let name = debug_string(fields[n - 1].name.as_str());
            append_pieces(&mut v, text_piece(concat(name.as_str(), ": ").as_str()));
            append_pieces(&mut v, fields[n - 1].value.debug_pieces());
            v
        }
    }
}

impl Value {
    /// A copy of the value.
    pub fn copy(&self) -> (res: Value)
        ensures
            res@ == self@,
        decreases *self, 0nat,
    {
        match self {
            Value::Whole(n) => Value::Whole(*n),
            Value::Fraction(b) => Value::Fraction(*b),
            Value::String(s) => Value::String(s.clone()),
            Value::Bool(b) => Value::Bool(*b),
            Value::Nil => Value::Nil,
            Value::Object { form_name, fields } => {
                let fs = Value::copy_fields(fields, fields.len());
                assert(fields@.take(fields.len() as int) =~= fields@);
                Value::Object { form_name: form_name.clone(), fields: fs }
            },
            Value::List(items) => {
                let vs = Value::copy_items(items, items.len());
                assert(items@.take(items.len() as int) =~= items@);
                Value::List(vs)
            },
        }
    }

    /// Copies of the first `n` values.
    pub fn copy_items(items: &Vec<Value>, n: usize) -> (res: Vec<Value>)
        requires
            n <= items.len(),
        ensures
            values_view(res@) == values_view(items@.take(n as int)),
        decreases items@, n,
    {
        if n == 0 {
            let v: Vec<Value> = Vec::new();
            assert(values_view(v@) =~= values_view(items@.take(0)));
            v
        } else {
            let mut v = Value::copy_items(items, n - 1);
            let c = items[n - 1].copy();
            proof {
                lemma_values_view_push(v@, c);
                assert(items@.take(n as int).drop_last() =~= items@.take(n - 1));
            }
            v.push(c);
            v
        }
    }

    /// Copies of the first `n` fields.
    pub fn copy_fields(fields: &Vec<Field>, n: usize) -> (res: Vec<Field>)
        requires
            n <= fields.len(),
        ensures
            fields_view(res@) == fields_view(fields@.take(n as int)),
        decreases fields@, n,
    {
        if n == 0 {
            let v: Vec<Field> = Vec::new();
            assert(fields_view(v@) =~= fields_view(fields@.take(0)));
            v
        } else {
            let mut v = Value::copy_fields(fields, n - 1);
            let f = Field { name: fields[n - 1].name.clone(), value: fields[n - 1].value.copy() };
            proof {
                lemma_fields_view_push(v@, f);
                assert(fields@.take(n as int).drop_last() =~= fields@.take(n - 1));
            }
            v.push(f);
            v
        }
    }
}

// ---------------------------------------------------------------- numbers

/// The bits of a binary64 number without its sign.
pub open spec fn magnitude_bits(b: u64) -> u64 {
    b & 0x7fff_ffff_ffff_ffffu64
}

/// IEEE-754: `x != 0.0` holds of every binary64 `x` except +0 and -0.
pub open spec fn frac_nonzero(b: u64) -> bool {
    magnitude_bits(b) != 0
}

/// IEEE-754: a NaN has all exponent bits set and a non-zero significand.
pub open spec fn frac_is_nan(b: u64) -> bool {
    b & 0x7ff0_0000_0000_0000u64 == 0x7ff0_0000_0000_0000u64 && b & 0x000f_ffff_ffff_ffffu64 != 0
}

/// IEEE-754 equality `x == y` of two binary64 numbers given by their bits:
/// NaN equals nothing, and +0 equals -0.
pub open spec fn frac_eq(x: u64, y: u64) -> bool {
    !frac_is_nan(x) && !frac_is_nan(y) && (x == y || (!frac_nonzero(x) && !frac_nonzero(y)))
}

pub fn fraction_nonzero(b: u64) -> (res: bool)
    ensures
        res == frac_nonzero(b),
{
    b & 0x7fff_ffff_ffff_ffffu64 != 0
}

pub fn fraction_eq(x: u64, y: u64) -> (res: bool)
    ensures
        res == frac_eq(x, y),
{
    let nan_x = x & 0x7ff0_0000_0000_0000u64 == 0x7ff0_0000_0000_0000u64 && x
        & 0x000f_ffff_ffff_ffffu64 != 0;
    let nan_y = y & 0x7ff0_0000_0000_0000u64 == 0x7ff0_0000_0000_0000u64 && y
        & 0x000f_ffff_ffff_ffffu64 != 0;
    !nan_x && !nan_y && (x == y || (!fraction_nonzero(x) && !fraction_nonzero(y)))
}

/// Whether a value counts as true in `check`, `loop`, `and`, `or`, `not`.
pub open spec fn truthy(v: VVal) -> bool {
    match v {
        VVal::Bool(b) => b,
        VVal::Nil => false,
        VVal::Whole(n) => n != 0,
        VVal::Fraction(f) => frac_nonzero(f),
        VVal::Str(s) => s.len() != 0,
        VVal::Object(..) => true,
        VVal::List(l) => l.len() != 0,
    }
}

impl Value {
    /// Truthiness of a value.
    pub fn is_truthy(&self) -> (res: bool)
        ensures
            res == truthy(self@),
    {
        match self {
            Value::Bool(b) => *b,
            Value::Nil => false,
            Value::Whole(n) => *n != 0,
            Value::Fraction(f) => fraction_nonzero(*f),
            Value::String(s) => !s.as_str().is_empty(),
            Value::Object { .. } => true,
            Value::List(l) => {
                proof {
                    lemma_values_view(l@);
                }
                l.len() != 0
            },
        }
    }
}

// ---------------------------------------------------------------- equality

/// The index of the first field named `name`.
pub open spec fn find_field(fields: Seq<VField>, name: Seq<char>) -> Option<int>
    decreases fields.len(),
{
    if fields.len() == 0 {
        None
    } else {
        match find_field(fields.drop_last(), name) {
            Some(i) => Some(i),
            None => if fields.last().name == name {
                Some(fields.len() - 1)
            } else {
                None
            },
        }
    }
}

/// The derived `==` of values: fractions compare as binary64 numbers,
/// objects as maps from field names to values.
pub open spec fn value_eq(a: VVal, b: VVal) -> bool
    decreases a, 0nat,
{
    match (a, b) {
        (VVal::Whole(x), VVal::Whole(y)) => x == y,
        (VVal::Fraction(x), VVal::Fraction(y)) => frac_eq(x, y),
        (VVal::Str(x), VVal::Str(y)) => x == y,
        (VVal::Bool(x), VVal::Bool(y)) => x == y,
        (VVal::Nil, VVal::Nil) => true,
        (VVal::Object(f1, a1), VVal::Object(f2, a2)) => f1 == f2 && a1.len() == a2.len()
            && fields_within(a1, a2, a1.len()),
        (VVal::List(x), VVal::List(y)) => x.len() == y.len() && items_eq(x, y, x.len()),
        _ => false,
    }
}

/// The first `n` items are pairwise equal.
pub open spec fn items_eq(xs: Seq<VVal>, ys: Seq<VVal>, n: nat) -> bool
    decreases xs, n,
{
    if n == 0 || n > xs.len() || n > ys.len() {
        n == 0
    } else {
        items_eq(xs, ys, (n - 1) as nat) && value_eq(xs[n - 1], ys[n - 1])
    }
}

/// Each of the first `n` fields of `xs` has an equal field of the same name in `ys`.
pub open spec fn fields_within(xs: Seq<VField>, ys: Seq<VField>, n: nat) -> bool
    decreases xs, n,
{
    if n == 0 || n > xs.len() {
        n == 0
    } else {
        fields_within(xs, ys, (n - 1) as nat) && match find_field(ys, xs[n - 1].name) {
            Some(j) => 0 <= j < ys.len() && value_eq(xs[n - 1].value, ys[j].value),
            None => false,
        }
    }
}

pub proof fn lemma_find_field_bounds(fields: Seq<VField>, name: Seq<char>)
    ensures
        match find_field(fields, name) {
            Some(i) => 0 <= i < fields.len() && fields[i].name == name && forall|k: int|
                0 <= k < i ==> fields[k].name != name,
            None => forall|k: int| 0 <= k < fields.len() ==> fields[k].name != name,
        },
    decreases fields.len(),
{
    if fields.len() > 0 {
        let init = fields.drop_last();
        lemma_find_field_bounds(init, name);
        assert(forall|k: int| 0 <= k < init.len() ==> #[trigger] init[k] == fields[k]);
        match find_field(init, name) {
            Some(i) => {
                assert forall|k: int| 0 <= k < i implies fields[k].name != name by {
                    assert(init[k] == fields[k]);
                }
            },
            None => {
                assert forall|k: int| 0 <= k < fields.len() - 1 implies fields[k].name
                    != name by {
                    assert(init[k] == fields[k]);
                }
            },
        }
    }
}

/// The position of the first field named `name`.
pub fn field_position(fields: &Vec<Field>, name: &str) -> (res: Option<usize>)
    ensures
        match res {
            Some(i) => find_field(fields_view(fields@), name@) == Some(i as int),
            None => find_field(fields_view(fields@), name@) is None,
        },
{
    proof {
        lemma_fields_view(fields@);
        lemma_find_field_bounds(fields_view(fields@), name@);
    }
    let ghost fv = fields_view(fields@);
    let mut i: usize = 0;
    while i < fields.len()
        invariant
            0 <= i <= fields.len(),
            fv == fields_view(fields@),
            fv.len() == fields.len(),
            forall|k: int| 0 <= k < i ==> fv[k].name != name@,
            forall|k: int| 0 <= k < fields.len() ==> #[trigger] fv[k].name == fields@[k].name@,
        decreases fields.len() - i,
    {
        if text_eq(fields[i].name.as_str(), name) {
            proof {
                lemma_find_field_bounds(fv, name@);
                let r = find_field(fv, name@);
                if r is None {
                    assert(fv[i as int].name == name@);
                } else {
                    let j = r->0;
                    assert(!(j < i));
                    assert(!(j > i));
                }
            }
            return Some(i);
        }
        i += 1;
    }
    proof {
        lemma_find_field_bounds(fv, name@);
        if find_field(fv, name@) is Some {
            let j = find_field(fv, name@)->0;
            assert(fv[j].name != name@);
        }
    }
    None
}

impl Value {
    /// `==` on values.
    pub fn equals(&self, other: &Value) -> (res: bool)
        ensures
            res == value_eq(self@, other@),
        decreases *self, 0nat,
    {
        match (self, other) {
            (Value::Whole(x), Value::Whole(y)) => *x == *y,
            (Value::Fraction(x), Value::Fraction(y)) => fraction_eq(*x, *y),
            (Value::String(x), Value::String(y)) => text_eq(x.as_str(), y.as_str()),
            (Value::Bool(x), Value::Bool(y)) => *x == *y,
            (Value::Nil, Value::Nil) => true,
            (
                Value::Object { form_name: f1, fields: a1 },
                Value::Object { form_name: f2, fields: a2 },
            ) => {
                proof {
                    lemma_fields_view(a1@);
                    lemma_fields_view(a2@);
                }
                text_eq(f1.as_str(), f2.as_str()) && a1.len() == a2.len()
                    && Value::fields_within_exec(a1, a2, a1.len())
            },
            (Value::List(x), Value::List(y)) => {
                proof {
                    lemma_values_view(x@);
                    lemma_values_view(y@);
                }
                x.len() == y.len() && Value::items_eq_exec(x, y, x.len())
            },
            _ => false,
        }
    }

    fn items_eq_exec(xs: &Vec<Value>, ys: &Vec<Value>, n: usize) -> (res: bool)
        requires
            n <= xs.len(),
            n <= ys.len(),
        ensures
            res == items_eq(values_view(xs@), values_view(ys@), n as nat),
        decreases xs@, n,
    {
        proof {
            lemma_values_view(xs@);
            lemma_values_view(ys@);
        }
        if n == 0 {
            true
        } else {
            Value::items_eq_exec(xs, ys, n - 1) && xs[n - 1].equals(&ys[n - 1])
        }
    }

    fn fields_within_exec(xs: &Vec<Field>, ys: &Vec<Field>, n: usize) -> (res: bool)
        requires
            n <= xs.len(),
        ensures
            res == fields_within(fields_view(xs@), fields_view(ys@), n as nat),
        decreases xs@, n,
    {
        proof {
            lemma_fields_view(xs@);
            lemma_fields_view(ys@);
        }
        if n == 0 {
            true
        } else if !Value::fields_within_exec(xs, ys, n - 1) {
            false
        } else {
            match field_position(ys, xs[n - 1].name.as_str()) {
                Some(j) => {
                    proof {
                        lemma_find_field_bounds(fields_view(ys@), xs@[n - 1].name@);
                    }
                    xs[n - 1].value.equals(&ys[j].value)
                },
                None => false,
            }
        }
    }
}


// ---------------------------------------------------------------- operators

/// A number handed to the host for IEEE arithmetic.
#[derive(Clone, Copy, PartialEq, Eq, Structural)]
pub enum Num {
    Whole(i64),
    Fraction(u64),
}

/// A binary64 operation; mixed operands convert the whole number with `as f64`.
#[derive(Clone, Copy, PartialEq, Eq, Structural)]
pub enum FloatOp {
    Add,
    Sub,
    Mul,
    Div,
    Lt,
    Le,
    Gt,
    Ge,
}

/// IEEE work that the library leaves to the host: arithmetic gives a
/// `Value::Fraction`, comparison a `Value::Bool`.
#[derive(Clone, Copy, PartialEq, Eq, Structural)]
pub struct FloatTask {
    pub op: FloatOp,
    pub lhs: Num,
    pub rhs: Num,
}

/// The result of an operator.
pub enum Outcome {
    /// `Ok(value)`.
    Ready(Value),
    /// `Err(error)`.
    Failed(RuntimeError),
    /// `Ok` of the host's IEEE result.
    Float(FloatTask),
    /// `Ok(Value::String(text))` where the host renders the pieces into `text`.
    Text(Vec<Piece>),
    /// `Err(TypeError(text))` where the host renders the pieces into `text`.
    ErrorText(Vec<Piece>),
    /// Integer division or remainder overflowed (`i64::MIN` by `-1`), where
    /// Rust's `/` and `%` panic.
    Overflow,
}

/// The mathematical content of an [`Outcome`].
pub enum MOutcome {
    Ready(VVal),
    Failed(MErr),
    Float(FloatTask),
    Text(Seq<Chunk>),
    ErrorText(Seq<Chunk>),
    Overflow,
}

impl View for Outcome {
    type V = MOutcome;

    open spec fn view(&self) -> MOutcome {
        match self {
            Outcome::Ready(v) => MOutcome::Ready(v@),
            Outcome::Failed(e) => MOutcome::Failed(e@),
            Outcome::Float(t) => MOutcome::Float(*t),
            Outcome::Text(ps) => MOutcome::Text(chunks(ps@)),
            Outcome::ErrorText(ps) => MOutcome::ErrorText(chunks(ps@)),
            Outcome::Overflow => MOutcome::Overflow,
        }
    }
}

/// The operand as a number, if it is one.
pub open spec fn num_of(v: VVal) -> Option<Num> {
    match v {
        VVal::Whole(n) => Some(Num::Whole(n)),
        VVal::Fraction(f) => Some(Num::Fraction(f)),
        _ => None,
    }
}

/// Both operands are numbers and at least one is a fraction.
pub open spec fn float_pair(a: VVal, b: VVal) -> bool {
    num_of(a) is Some && num_of(b) is Some && (a is Fraction || b is Fraction)
}

pub open spec fn float_task(op: FloatOp, a: VVal, b: VVal) -> MOutcome {
    MOutcome::Float(FloatTask { op, lhs: num_of(a)->0, rhs: num_of(b)->0 })
}

pub open spec fn type_error(m: Seq<char>) -> MOutcome {
    MOutcome::Failed(MErr::TypeError(m))
}

/// `+`: numbers add (wrapping for wholes), strings concatenate, and a string
/// joined with `none`, a list, a whole or a fraction takes its display text.
pub open spec fn add_result(a: VVal, b: VVal) -> MOutcome {
    match (a, b) {
        (VVal::Whole(x), VVal::Whole(y)) => MOutcome::Ready(VVal::Whole(x.wrapping_add(y))),
        (VVal::Str(x), VVal::Str(y)) => MOutcome::Ready(VVal::Str(x + y)),
        (VVal::Str(x), VVal::Nil) => MOutcome::Ready(VVal::Str(x + "none"@)),
        (VVal::Nil, VVal::Str(y)) => MOutcome::Ready(VVal::Str("none"@ + y)),
        (VVal::Str(x), VVal::List(_)) => MOutcome::Text(text_chunk(x) + display_chunks(b)),
        (VVal::List(_), VVal::Str(y)) => MOutcome::Text(display_chunks(a) + text_chunk(y)),
        (VVal::Str(x), VVal::Whole(n)) => MOutcome::Ready(VVal::Str(x + int_text(n as int))),
        (VVal::Str(x), VVal::Fraction(f)) => MOutcome::Text(
            text_chunk(x) + seq![Chunk::Fraction(f)],
        ),
        (VVal::Whole(n), VVal::Str(y)) => MOutcome::Ready(VVal::Str(int_text(n as int) + y)),
        (VVal::Fraction(f), VVal::Str(y)) => MOutcome::Text(
            seq![Chunk::Fraction(f)] + text_chunk(y),
        ),
        _ => if float_pair(a, b) {
            float_task(FloatOp::Add, a, b)
        } else {
            MOutcome::ErrorText(
                text_chunk("Cannot add "@) + debug_chunks(a) + text_chunk(" and "@) + debug_chunks(
                    b,
                ),
            )
        },
    }
}

/// `-` and `*`: wholes wrap, fractions go to the host, anything else is a type error.
pub open spec fn arith_result(op: FloatOp, a: VVal, b: VVal) -> MOutcome {
    match (a, b) {
        (VVal::Whole(x), VVal::Whole(y)) => MOutcome::Ready(
            VVal::Whole(
                if op is Sub {
                    x.wrapping_sub(y)
                } else {
                    x.wrapping_mul(y)
                },
            ),
        ),
        _ => if float_pair(a, b) {
            float_task(op, a, b)
        } else {
            type_error(
                if op is Sub {
                    "Type mismatch for subtraction"@
                } else {
                    "Type mismatch for multiplication"@
                },
            )
        },
    }
}

/// `/`: the cases are tried in this order.
pub open spec fn div_result(a: VVal, b: VVal) -> MOutcome {
    match (a, b) {
        (VVal::Whole(x), VVal::Whole(y)) => if y != 0 {
            match x.checked_div(y) {
                Some(q) => MOutcome::Ready(VVal::Whole(q)),
                None => MOutcome::Overflow,
            }
        } else {
            MOutcome::Failed(MErr::DivisionByZero)
        },
        (VVal::Fraction(_), VVal::Fraction(y)) => if frac_nonzero(y) {
            float_task(FloatOp::Div, a, b)
        } else {
            MOutcome::Failed(MErr::DivisionByZero)
        },
        (VVal::Whole(_), VVal::Fraction(y)) => if frac_nonzero(y) {
            float_task(FloatOp::Div, a, b)
        } else {
            MOutcome::Failed(MErr::DivisionByZero)
        },
        (VVal::Fraction(_), VVal::Whole(y)) => if y != 0 {
            float_task(FloatOp::Div, a, b)
        } else {
            MOutcome::Failed(MErr::DivisionByZero)
        },
        (_, VVal::Whole(0)) => MOutcome::Failed(MErr::DivisionByZero),
        (_, VVal::Fraction(y)) => if !frac_nonzero(y) {
            MOutcome::Failed(MErr::DivisionByZero)
        } else {
            type_error("Type mismatch for division"@)
        },
        _ => type_error("Type mismatch for division"@),
    }
}

/// `%`: wholes only.
pub open spec fn rem_result(a: VVal, b: VVal) -> MOutcome {
    match (a, b) {
        (VVal::Whole(x), VVal::Whole(y)) => if y != 0 {
            match x.checked_rem(y) {
                Some(q) => MOutcome::Ready(VVal::Whole(q)),
                None => MOutcome::Overflow,
            }
        } else {
            MOutcome::Failed(MErr::DivisionByZero)
        },
        (_, VVal::Whole(0)) => MOutcome::Failed(MErr::DivisionByZero),
        _ => type_error("Remainder only for integers"@),
    }
}

/// Lexicographic order of texts by code point (the order of `String`'s
/// `Ord`, which compares UTF-8 bytes): negative, zero or positive.
pub open spec fn text_order(a: Seq<char>, b: Seq<char>) -> int
    decreases a.len(),
{
    if a.len() == 0 {
        if b.len() == 0 {
            0
        } else {
            -1
        }
    } else if b.len() == 0 {
        1
    } else if (a[0] as u32) < (b[0] as u32) {
        -1
    } else if (a[0] as u32) > (b[0] as u32) {
        1
    } else {
        text_order(a.drop_first(), b.drop_first())
    }
}

/// Whether `c` (the sign of a comparison) satisfies the relation.
pub open spec fn holds(op: FloatOp, c: int) -> bool {
    match op {
        FloatOp::Lt => c < 0,
        FloatOp::Le => c <= 0,
        FloatOp::Gt => c > 0,
        _ => c >= 0,
    }
}

pub open spec fn int_sign(x: int, y: int) -> int {
    if x < y {
        -1
    } else if x > y {
        1
    } else {
        0
    }
}

/// `<`, `<=`, `>`, `>=` (`op` names which): numbers and strings compare.
pub open spec fn compare_result(op: FloatOp, a: VVal, b: VVal) -> MOutcome {
    match (a, b) {
        (VVal::Whole(x), VVal::Whole(y)) => MOutcome::Ready(
            VVal::Bool(holds(op, int_sign(x as int, y as int))),
        ),
        (VVal::Str(x), VVal::Str(y)) => MOutcome::Ready(VVal::Bool(holds(op, text_order(x, y)))),
        _ => if float_pair(a, b) {
            float_task(op, a, b)
        } else {
            MOutcome::ErrorText(
                text_chunk("Cannot compare "@) + debug_chunks(a) + text_chunk(" and "@)
                    + debug_chunks(b),
            )
        },
    }
}

/// The order of two texts by code point.
pub fn compare_text(a: &str, b: &str) -> (res: i8)
    ensures
        res as int == text_order(a@, b@),
{
    let x = chars_of(a);
    let y = chars_of(b);
    let mut i: usize = 0;
    assert(x@.skip(0) =~= x@);
    assert(y@.skip(0) =~= y@);
    while i < x.len() && i < y.len()
        invariant
            0 <= i <= x.len(),
            i <= y.len(),
            x@ == a@,
            y@ == b@,
            text_order(a@, b@) == text_order(x@.skip(i as int), y@.skip(i as int)),
        decreases x.len() - i,
    {
        let cx = x[i] as u32;
        let cy = y[i] as u32;
        let ghost xs = x@.skip(i as int);
        let ghost ys = y@.skip(i as int);
        assert(xs.len() > 0 && ys.len() > 0);
        assert(xs[0] == x@[i as int]);
        assert(ys[0] == y@[i as int]);
        if cx < cy {
            return -1;
        }
        if cx > cy {
            return 1;
        }
        assert(xs.drop_first() =~= x@.skip(i as int + 1));
        assert(ys.drop_first() =~= y@.skip(i as int + 1));
        i += 1;
    }
    if i == x.len() {
        if i == y.len() {
            assert(x@.skip(i as int).len() == 0 && y@.skip(i as int).len() == 0);
            0
        } else {
            assert(x@.skip(i as int).len() == 0 && y@.skip(i as int).len() > 0);
            -1
        }
    } else {
        assert(x@.skip(i as int).len() > 0 && y@.skip(i as int).len() == 0);
        1
    }
}

fn num(v: &Value) -> (res: Num)
    requires
        num_of(v@) is Some,
    ensures
        res == num_of(v@)->0,
{
    match v {
        Value::Whole(n) => Num::Whole(*n),
        Value::Fraction(f) => Num::Fraction(*f),
        _ => Num::Whole(0),
    }
}

fn is_num(v: &Value) -> (res: bool)
    ensures
        res == (num_of(v@) is Some),
{
    match v {
        Value::Whole(_) | Value::Fraction(_) => true,
        _ => false,
    }
}

fn is_float_pair(a: &Value, b: &Value) -> (res: bool)
    ensures
        res == float_pair(a@, b@),
{
    let fa = match a {
        Value::Fraction(_) => true,
        _ => false,
    };
    let fb = match b {
        Value::Fraction(_) => true,
        _ => false,
    };
    is_num(a) && is_num(b) && (fa || fb)
}

pub fn pieces_of_text(s: String) -> (res: Vec<Piece>)
    ensures
        chunks(res@) == text_chunk(s@),
{
    let ghost t = s@;
    let mut v: Vec<Piece> = Vec::new();
    v.push(Piece::Text(s));
    assert(chunks(v@) =~= text_chunk(t));
    v
}

fn binary_error_pieces(what: &str, a: &Value, b: &Value) -> (res: Vec<Piece>)
    ensures
        chunks(res@) == text_chunk(what@) + debug_chunks(a@) + text_chunk(" and "@)
            + debug_chunks(b@),
{
    let mut v = text_piece(what);
    append_pieces(&mut v, a.debug_pieces());
    append_pieces(&mut v, text_piece(" and "));
    append_pieces(&mut v, b.debug_pieces());
    v
}

fn frac_piece(f: u64) -> (res: Vec<Piece>)
    ensures
        chunks(res@) == seq![Chunk::Fraction(f)],
{
    let mut v: Vec<Piece> = Vec::new();
    v.push(Piece::Fraction(f));
    assert(chunks(v@) =~= seq![Chunk::Fraction(f)]);
    v
}

impl Value {
    /// `self + other`.
    pub fn add(self, other: Value) -> (res: Outcome)
        ensures
            res@ == add_result(self@, other@),
    {
        if is_float_pair(&self, &other) {
            return Outcome::Float(FloatTask { op: FloatOp::Add, lhs: num(&self), rhs: num(&other) });
        }
        match (self, other) {
            (Value::Whole(x), Value::Whole(y)) => Outcome::Ready(Value::Whole(x.wrapping_add(y))),
            (Value::String(x), Value::String(y)) => Outcome::Ready(
                Value::String(concat(x.as_str(), y.as_str())),
            ),
            (Value::String(x), Value::Nil) => Outcome::Ready(
                Value::String(concat(x.as_str(), "none")),
            ),
            (Value::Nil, Value::String(y)) => Outcome::Ready(
                Value::String(concat("none", y.as_str())),
            ),
            (Value::String(x), Value::List(l)) => {
                let mut v = pieces_of_text(x);
                append_pieces(&mut v, Value::List(l).display_pieces());
                Outcome::Text(v)
            },
            (Value::List(l), Value::String(y)) => {
                let mut v = Value::List(l).display_pieces();
                append_pieces(&mut v, pieces_of_text(y));
                Outcome::Text(v)
            },
            (Value::String(x), Value::Whole(n)) => Outcome::Ready(
                Value::String(concat(x.as_str(), int_to_string(n).as_str())),
            ),
            (Value::String(x), Value::Fraction(f)) => {
                let mut v = pieces_of_text(x);
                append_pieces(&mut v, frac_piece(f));
                Outcome::Text(v)
            },
            (Value::Whole(n), Value::String(y)) => Outcome::Ready(
                Value::String(concat(int_to_string(n).as_str(), y.as_str())),
            ),
            (Value::Fraction(f), Value::String(y)) => {
                let mut v = frac_piece(f);
                append_pieces(&mut v, pieces_of_text(y));
                Outcome::Text(v)
            },
            (a, b) => Outcome::ErrorText(binary_error_pieces("Cannot add ", &a, &b)),
        }
    }

    /// `self - other`.
    pub fn sub(self, other: Value) -> (res: Outcome)
        ensures
            res@ == arith_result(FloatOp::Sub, self@, other@),
    {
        if is_float_pair(&self, &other) {
            return Outcome::Float(FloatTask { op: FloatOp::Sub, lhs: num(&self), rhs: num(&other) });
        }
        match (self, other) {
            (Value::Whole(x), Value::Whole(y)) => Outcome::Ready(Value::Whole(x.wrapping_sub(y))),
            _ => Outcome::Failed(
                RuntimeError::TypeError("Type mismatch for subtraction".to_owned()),
            ),
        }
    }

    /// `self * other`.
    pub fn mul(self, other: Value) -> (res: Outcome)
        ensures
            res@ == arith_result(FloatOp::Mul, self@, other@),
    {
        if is_float_pair(&self, &other) {
            return Outcome::Float(FloatTask { op: FloatOp::Mul, lhs: num(&self), rhs: num(&other) });
        }
        match (self, other) {
            (Value::Whole(x), Value::Whole(y)) => Outcome::Ready(Value::Whole(x.wrapping_mul(y))),
            _ => Outcome::Failed(
                RuntimeError::TypeError("Type mismatch for multiplication".to_owned()),
            ),
        }
    }

    /// `self / other`.
    pub fn div(self, other: Value) -> (res: Outcome)
        ensures
            res@ == div_result(self@, other@),
    {
        match (self, other) {
            (Value::Whole(x), Value::Whole(y)) => if y != 0 {
                match x.checked_div(y) {
                    Some(q) => Outcome::Ready(Value::Whole(q)),
                    None => Outcome::Overflow,
                }
            } else {
                Outcome::Failed(RuntimeError::DivisionByZero)
            },
            (Value::Fraction(x), Value::Fraction(y)) => if fraction_nonzero(y) {
                Outcome::Float(
                    FloatTask { op: FloatOp::Div, lhs: Num::Fraction(x), rhs: Num::Fraction(y) },
                )
            } else {
                Outcome::Failed(RuntimeError::DivisionByZero)
            },
            (Value::Whole(x), Value::Fraction(y)) => if fraction_nonzero(y) {
                Outcome::Float(
                    FloatTask { op: FloatOp::Div, lhs: Num::Whole(x), rhs: Num::Fraction(y) },
                )
            } else {
                Outcome::Failed(RuntimeError::DivisionByZero)
            },
            (Value::Fraction(x), Value::Whole(y)) => if y != 0 {
                Outcome::Float(
                    FloatTask { op: FloatOp::Div, lhs: Num::Fraction(x), rhs: Num::Whole(y) },
                )
            } else {
                Outcome::Failed(RuntimeError::DivisionByZero)
            },
            (_, Value::Whole(0)) => Outcome::Failed(RuntimeError::DivisionByZero),
            (_, Value::Fraction(y)) => if !fraction_nonzero(y) {
                Outcome::Failed(RuntimeError::DivisionByZero)
            } else {
                Outcome::Failed(RuntimeError::TypeError("Type mismatch for division".to_owned()))
            },
            _ => Outcome::Failed(RuntimeError::TypeError("Type mismatch for division".to_owned())),
        }
    }

    /// `self % other`.
    pub fn rem(self, other: Value) -> (res: Outcome)
        ensures
            res@ == rem_result(self@, other@),
    {
        match (self, other) {
            (Value::Whole(x), Value::Whole(y)) => if y != 0 {
                match x.checked_rem(y) {
                    Some(q) => Outcome::Ready(Value::Whole(q)),
                    None => Outcome::Overflow,
                }
            } else {
                Outcome::Failed(RuntimeError::DivisionByZero)
            },
            (_, Value::Whole(0)) => Outcome::Failed(RuntimeError::DivisionByZero),
            _ => Outcome::Failed(RuntimeError::TypeError("Remainder only for integers".to_owned())),
        }
    }

    /// `self == other`.
    pub fn eq(self, other: Value) -> (res: Outcome)
        ensures
            res@ == MOutcome::Ready(VVal::Bool(value_eq(self@, other@))),
    {
        Outcome::Ready(Value::Bool(self.equals(&other)))
    }

    /// `self != other`.
    pub fn ne(self, other: Value) -> (res: Outcome)
        ensures
            res@ == MOutcome::Ready(VVal::Bool(!value_eq(self@, other@))),
    {
        Outcome::Ready(Value::Bool(!self.equals(&other)))
    }

    fn compare(self, other: Value, op: FloatOp) -> (res: Outcome)
        requires
            op is Lt || op is Le || op is Gt || op is Ge,
        ensures
            res@ == compare_result(op, self@, other@),
    {
        if is_float_pair(&self, &other) {
            return Outcome::Float(FloatTask { op, lhs: num(&self), rhs: num(&other) });
        }
        let c: i8 = match (&self, &other) {
            (Value::Whole(x), Value::Whole(y)) => if *x < *y {
                -1
            } else if *x > *y {
                1
            } else {
                0
            },
            (Value::String(x), Value::String(y)) => compare_text(x.as_str(), y.as_str()),
            _ => {
                return Outcome::ErrorText(binary_error_pieces("Cannot compare ", &self, &other));
            },
        };
        let b = match op {
            FloatOp::Lt => c < 0,
            FloatOp::Le => c <= 0,
            FloatOp::Gt => c > 0,
            _ => c >= 0,
        };
        Outcome::Ready(Value::Bool(b))
    }

    /// `self < other`.
    pub fn lt(self, other: Value) -> (res: Outcome)
        ensures
            res@ == compare_result(FloatOp::Lt, self@, other@),
    {
        self.compare(other, FloatOp::Lt)
    }

    /// `self <= other`.
    pub fn le(self, other: Value) -> (res: Outcome)
        ensures
            res@ == compare_result(FloatOp::Le, self@, other@),
    {
        self.compare(other, FloatOp::Le)
    }

    /// `self > other`.
    pub fn gt(self, other: Value) -> (res: Outcome)
        ensures
            res@ == compare_result(FloatOp::Gt, self@, other@),
    {
        self.compare(other, FloatOp::Gt)
    }

    /// `self >= other`.
    pub fn ge(self, other: Value) -> (res: Outcome)
        ensures
            res@ == compare_result(FloatOp::Ge, self@, other@),
    {
        self.compare(other, FloatOp::Ge)
    }
}

// ------------------------------------------------------------------ laws

proof fn lemma_text_order_antisymmetric(a: Seq<char>, b: Seq<char>)
    ensures
        text_order(b, a) == -text_order(a, b),
    decreases a.len(),
{
    if a.len() > 0 && b.len() > 0 && (a[0] as u32) == (b[0] as u32) {
        lemma_text_order_antisymmetric(a.drop_first(), b.drop_first());
    }
}

proof fn lemma_text_order_zero(a: Seq<char>, b: Seq<char>)
    ensures
        (text_order(a, b) == 0) == (a == b),
    decreases a.len(),
{
    if a.len() > 0 && b.len() > 0 && (a[0] as u32) == (b[0] as u32) {
        lemma_text_order_zero(a.drop_first(), b.drop_first());
        vstd::utf8::char_u32_cast(a[0], a[0] as u32);
        vstd::utf8::char_u32_cast(b[0], b[0] as u32);
        assert(a[0] == b[0]);
        if a.drop_first() == b.drop_first() {
            assert(a =~= b) by {
                assert forall|i: int| 0 <= i < a.len() implies a[i] == b[i] by {
                    if i > 0 {
                        assert(a[i] == a.drop_first()[i - 1]);
                        assert(b[i] == b.drop_first()[i - 1]);
                    }
                }
            }
        } else {
            assert(a != b) by {
                if a == b {
                    assert(a.drop_first() =~= b.drop_first());
                }
            }
        }
    } else if a.len() > 0 && b.len() > 0 {
        assert(a[0] != b[0]);
    } else if a.len() > 0 || b.len() > 0 {
        assert(a.len() != b.len());
    } else {
        assert(a =~= b);
    }
}

/// The relation that holds with its operands swapped: `<` and `>`, `<=`
/// and `>=`.
pub open spec fn mirrored(op: FloatOp) -> FloatOp {
    match op {
        FloatOp::Lt => FloatOp::Gt,
        FloatOp::Gt => FloatOp::Lt,
        FloatOp::Le => FloatOp::Ge,
        FloatOp::Ge => FloatOp::Le,
        _ => op,
    }
}

/// Comparing with the operands swapped and the relation mirrored gives the
/// same answer: `a > b` as `b < a`, `a >= b` as `b <= a`. For wholes and
/// strings the results are equal; where a fraction takes part, the host is
/// asked the mirrored question about the same two numbers; any other pair
/// is a type error both ways.
pub proof fn lemma_compare_mirrored(op: FloatOp, a: VVal, b: VVal)
    requires
        op is Lt || op is Le || op is Gt || op is Ge,
    ensures
        match (compare_result(op, a, b), compare_result(mirrored(op), b, a)) {
            (MOutcome::Ready(x), MOutcome::Ready(y)) => x == y,
            (MOutcome::Float(t), MOutcome::Float(u)) => u == FloatTask {
                op: mirrored(op),
                lhs: t.rhs,
                rhs: t.lhs,
            },
            (MOutcome::ErrorText(_), MOutcome::ErrorText(_)) => true,
            _ => false,
        },
{
    match (a, b) {
        (VVal::Str(x), VVal::Str(y)) => {
            lemma_text_order_antisymmetric(x, y);
        },
        _ => {},
    }
}

/// Whether an outcome is the value `true`.
pub open spec fn is_true(o: MOutcome) -> bool {
    o == MOutcome::Ready(VVal::Bool(true))
}

/// For two wholes or two strings, `<=` is `<` or `==`, and `>=` is `>` or
/// `==`.
pub proof fn lemma_le_is_lt_or_eq(a: VVal, b: VVal)
    requires
        (a is Whole && b is Whole) || (a is Str && b is Str),
    ensures
        compare_result(FloatOp::Le, a, b) == MOutcome::Ready(
            VVal::Bool(is_true(compare_result(FloatOp::Lt, a, b)) || value_eq(a, b)),
        ),
        compare_result(FloatOp::Ge, a, b) == MOutcome::Ready(
            VVal::Bool(is_true(compare_result(FloatOp::Gt, a, b)) || value_eq(a, b)),
        ),
{
    match (a, b) {
        (VVal::Str(x), VVal::Str(y)) => {
            lemma_text_order_zero(x, y);
        },
        _ => {},
    }
}

/// A whole and a fraction are never equal (`==` compares variants first),
/// yet `<=` and `>=` compare them by value: the host is asked to compare
/// the two numbers, so `1 <= 1.0` holds while `1 == 1.0` does not.
pub proof fn lemma_mixed_numbers_order_not_equality(n: i64, f: u64)
    ensures
        !value_eq(VVal::Whole(n), VVal::Fraction(f)),
        !value_eq(VVal::Fraction(f), VVal::Whole(n)),
        compare_result(FloatOp::Le, VVal::Whole(n), VVal::Fraction(f)) == MOutcome::Float(
            FloatTask { op: FloatOp::Le, lhs: Num::Whole(n), rhs: Num::Fraction(f) },
        ),
        compare_result(FloatOp::Ge, VVal::Whole(n), VVal::Fraction(f)) == MOutcome::Float(
            FloatTask { op: FloatOp::Ge, lhs: Num::Whole(n), rhs: Num::Fraction(f) },
        ),
{
}

/// Two wholes compare in the order of the integers: `<`, `<=`, `>`, `>=`
/// hold exactly when they hold of the numbers.
pub proof fn lemma_whole_order(x: i64, y: i64)
    ensures
        compare_result(FloatOp::Lt, VVal::Whole(x), VVal::Whole(y)) == MOutcome::Ready(VVal::Bool(x < y)),
        compare_result(FloatOp::Le, VVal::Whole(x), VVal::Whole(y)) == MOutcome::Ready(VVal::Bool(x <= y)),
        compare_result(FloatOp::Gt, VVal::Whole(x), VVal::Whole(y)) == MOutcome::Ready(VVal::Bool(x > y)),
        compare_result(FloatOp::Ge, VVal::Whole(x), VVal::Whole(y)) == MOutcome::Ready(VVal::Bool(x >= y)),
        value_eq(VVal::Whole(x), VVal::Whole(y)) == (x == y),
{
}

/// Lists are equal exactly when they have the same length and their
/// elements are pairwise equal.
pub proof fn lemma_list_equality(xs: Seq<VVal>, ys: Seq<VVal>)
    ensures
        value_eq(VVal::List(xs), VVal::List(ys)) <==> (xs.len() == ys.len() && forall|i: int|
            0 <= i < xs.len() ==> value_eq(#[trigger] xs[i], ys[i])),
{
    if xs.len() == ys.len() {
        lemma_items_eq_pairwise(xs, ys, xs.len());
    }
}

proof fn lemma_items_eq_pairwise(xs: Seq<VVal>, ys: Seq<VVal>, n: nat)
    requires
        n <= xs.len(),
        n <= ys.len(),
    ensures
        items_eq(xs, ys, n) <==> forall|i: int| 0 <= i < n ==> value_eq(#[trigger] xs[i], ys[i]),
    decreases n,
{
    if n > 0 {
        lemma_items_eq_pairwise(xs, ys, (n - 1) as nat);
    }
}

proof fn lemma_fields_within_each(xs: Seq<VField>, ys: Seq<VField>, n: nat)
    requires
        n <= xs.len(),
    ensures
        fields_within(xs, ys, n) <==> forall|i: int|
            0 <= i < n ==> (#[trigger] find_field(ys, xs[i].name) matches Some(j) && 0 <= j
                < ys.len() && value_eq(xs[i].value, ys[j].value)),
    decreases n,
{
    if n > 0 {
        lemma_fields_within_each(xs, ys, (n - 1) as nat);
    }
}

/// Objects are equal exactly when they are of the same form, have as many
/// fields, and each field of the first has an equal value under the same
/// name in the second.
pub proof fn lemma_object_equality(f1: Seq<char>, a1: Seq<VField>, f2: Seq<char>, a2: Seq<VField>)
    ensures
        value_eq(VVal::Object(f1, a1), VVal::Object(f2, a2)) <==> (f1 == f2 && a1.len() == a2.len()
            && forall|i: int|
            0 <= i < a1.len() ==> (#[trigger] find_field(a2, a1[i].name) matches Some(j) && 0 <= j
                < a2.len() && value_eq(a1[i].value, a2[j].value))),
{
    lemma_fields_within_each(a1, a2, a1.len());
}

/// Strings, booleans and `none` are equal when they are the same; values of
/// different kinds are never equal (a whole and a fraction included).
pub proof fn lemma_scalar_equality(a: VVal, b: VVal, x: Seq<char>, y: Seq<char>, p: bool, q: bool)
    ensures
        value_eq(VVal::Str(x), VVal::Str(y)) == (x == y),
        value_eq(VVal::Bool(p), VVal::Bool(q)) == (p == q),
        value_eq(VVal::Nil, VVal::Nil),
        kind_of(a) != kind_of(b) ==> !value_eq(a, b),
{
}

/// The kind of a value: 0 whole, 1 fraction, 2 string, 3 boolean, 4 none,
/// 5 object, 6 list.
pub open spec fn kind_of(v: VVal) -> nat {
    match v {
        VVal::Whole(_) => 0,
        VVal::Fraction(_) => 1,
        VVal::Str(_) => 2,
        VVal::Bool(_) => 3,
        VVal::Nil => 4,
        VVal::Object(..) => 5,
        VVal::List(_) => 6,
    }
}

proof fn lemma_text_order_prefix(a: Seq<char>, b: Seq<char>)
    requires
        a.len() < b.len(),
        a =~= b.take(a.len() as int),
    ensures
        text_order(a, b) == -1,
    decreases a.len(),
{
    if a.len() > 0 {
        assert(a[0] == b[0]);
        lemma_text_order_prefix(a.drop_first(), b.drop_first());
    }
}

proof fn lemma_text_order_difference(a: Seq<char>, b: Seq<char>, i: int)
    requires
        0 <= i < a.len(),
        i < b.len(),
        a.take(i) =~= b.take(i),
        a[i] != b[i],
    ensures
        text_order(a, b) == if (a[i] as u32) < (b[i] as u32) { -1int } else { 1int },
    decreases i,
{
    vstd::utf8::char_u32_cast(a[i], a[i] as u32);
    vstd::utf8::char_u32_cast(b[i], b[i] as u32);
    if i > 0 {
        assert(a[0] == a.take(i)[0]);
        assert(b[0] == b.take(i)[0]);
        assert(a.drop_first().take(i - 1) =~= b.drop_first().take(i - 1)) by {
            assert forall|k: int| 0 <= k < i - 1 implies #[trigger] a.drop_first().take(i - 1)[k]
                == b.drop_first().take(i - 1)[k] by {
                assert(a.take(i)[k + 1] == b.take(i)[k + 1]);
            }
        }
        lemma_text_order_difference(a.drop_first(), b.drop_first(), i - 1);
    }
}

/// Strings compare by code point, position by position: a proper prefix
/// comes first; otherwise the first position where they differ decides. So
/// `"ab" < "abc"`, `"abc" < "abd"`, and `"Z" < "a"`.
pub proof fn lemma_string_order(a: Seq<char>, b: Seq<char>, i: int)
    ensures
        a.len() < b.len() && a =~= b.take(a.len() as int) ==> compare_result(
            FloatOp::Lt,
            VVal::Str(a),
            VVal::Str(b),
        ) == MOutcome::Ready(VVal::Bool(true)),
        0 <= i < a.len() && i < b.len() && a.take(i) =~= b.take(i) && a[i] != b[i]
            ==> compare_result(FloatOp::Lt, VVal::Str(a), VVal::Str(b)) == MOutcome::Ready(
            VVal::Bool((a[i] as u32) < (b[i] as u32)),
        ),
        compare_result(FloatOp::Le, VVal::Str(a), VVal::Str(a)) == MOutcome::Ready(VVal::Bool(true)),
        compare_result(FloatOp::Lt, VVal::Str(a), VVal::Str(a)) == MOutcome::Ready(VVal::Bool(false)),
{
    if a.len() < b.len() && a =~= b.take(a.len() as int) {
        lemma_text_order_prefix(a, b);
    }
    if 0 <= i < a.len() && i < b.len() && a.take(i) =~= b.take(i) && a[i] != b[i] {
        lemma_text_order_difference(a, b, i);
    }
    lemma_text_order_zero(a, a);
}

/// `+`, `-` and `*` on wholes give the integer result wherever it fits in
/// `i64` (and wrap around otherwise); `+` on strings joins them.
pub proof fn lemma_whole_arithmetic(x: i64, y: i64, a: Seq<char>, b: Seq<char>)
    ensures
        i64::MIN <= x + y <= i64::MAX ==> add_result(VVal::Whole(x), VVal::Whole(y))
            == MOutcome::Ready(VVal::Whole((x + y) as i64)),
        i64::MIN <= x - y <= i64::MAX ==> arith_result(FloatOp::Sub, VVal::Whole(x), VVal::Whole(y))
            == MOutcome::Ready(VVal::Whole((x - y) as i64)),
        i64::MIN <= x * y <= i64::MAX ==> arith_result(FloatOp::Mul, VVal::Whole(x), VVal::Whole(y))
            == MOutcome::Ready(VVal::Whole((x * y) as i64)),
        add_result(VVal::Str(a), VVal::Str(b)) == MOutcome::Ready(VVal::Str(a + b)),
{
}

/// Division and remainder of wholes agree with each other as Rust's do:
/// the quotient rounds toward zero, `x == q * y + r`, the remainder is
/// smaller than the divisor in size and has the sign of `x` (or is zero);
/// division by zero is an error.
pub proof fn lemma_whole_division(x: i64, y: i64)
    ensures
        y == 0 ==> div_result(VVal::Whole(x), VVal::Whole(y)) == MOutcome::Failed(MErr::DivisionByZero),
        y == 0 ==> rem_result(VVal::Whole(x), VVal::Whole(y)) == MOutcome::Failed(MErr::DivisionByZero),
        y != 0 && !(x == i64::MIN && y == -1) ==> (div_result(VVal::Whole(x), VVal::Whole(y)) matches MOutcome::Ready(VVal::Whole(q)) && rem_result(VVal::Whole(x), VVal::Whole(y)) matches MOutcome::Ready(VVal::Whole(r)) && x == q * y + r
            && (if y > 0 { -y < r < y } else { y < r < -y }) && (r == 0 || (r > 0) == (x > 0))),
{
    if y != 0 && !(x == i64::MIN && y == -1) {
        let xi = x as int;
        let d = y as int;
        if xi > 0 && d > 0 {
            let q = xi / d;
            let r = xi % d;
            assert(xi == q * d + r && 0 <= r < d && 0 <= q <= xi) by (nonlinear_arith)
                requires
                    d > 0,
                    xi > 0,
                    q == xi / d,
                    r == xi % d,
            ;
            assert(x.checked_div(y) == Some(q as i64));
            assert(x.checked_rem(y) == Some(r as i64));
            assert((q as i64) as int == q && (r as i64) as int == r);
            assert(x == (q as i64) * y + (r as i64));
            assert(div_result(VVal::Whole(x), VVal::Whole(y)) == MOutcome::Ready(VVal::Whole(q as i64)));
            assert(rem_result(VVal::Whole(x), VVal::Whole(y)) == MOutcome::Ready(VVal::Whole(r as i64)));
            assert(div_result(VVal::Whole(x), VVal::Whole(y)) == MOutcome::Ready(VVal::Whole(q as i64)));
        } else if xi < 0 && d < 0 {
            let nx = xi * -1;
            let nd = d * -1;
            let q = nx / nd;
            let r = (nx % nd) * -1;
            assert(xi == q * d + r && d < r <= 0 && 0 <= q <= nx && (nd >= 2 ==> 2 * q <= nx))
                by (nonlinear_arith)
                requires
                    nd > 0,
                    nx > 0,
                    nx == xi * -1,
                    nd == d * -1,
                    q == nx / nd,
                    r == (nx % nd) * -1,
            ;
            assert(x.checked_div(y) == Some(q as i64));
            assert(x.checked_rem(y) == Some(r as i64));
            assert((q as i64) as int == q && (r as i64) as int == r);
            assert(x == (q as i64) * y + (r as i64));
            assert(div_result(VVal::Whole(x), VVal::Whole(y)) == MOutcome::Ready(VVal::Whole(q as i64)));
            assert(rem_result(VVal::Whole(x), VVal::Whole(y)) == MOutcome::Ready(VVal::Whole(r as i64)));
        } else if xi < 0 {
            let nx = xi * -1;
            let q = (nx / d) * -1;
            let r = (nx % d) * -1;
            assert(xi == q * d + r && -d < r <= 0 && -nx <= q <= 0) by (nonlinear_arith)
                requires
                    d > 0,
                    nx > 0,
                    nx == xi * -1,
                    q == (nx / d) * -1,
                    r == (nx % d) * -1,
            ;
            assert(x.checked_div(y) == Some(q as i64));
            assert(x.checked_rem(y) == Some(r as i64));
            assert((q as i64) as int == q && (r as i64) as int == r);
            assert(x == (q as i64) * y + (r as i64));
            assert(div_result(VVal::Whole(x), VVal::Whole(y)) == MOutcome::Ready(VVal::Whole(q as i64)));
            assert(rem_result(VVal::Whole(x), VVal::Whole(y)) == MOutcome::Ready(VVal::Whole(r as i64)));
        } else if xi > 0 {
            let nd = d * -1;
            let q = (xi / nd) * -1;
            let r = xi % nd;
            assert(xi == q * d + r && 0 <= r < nd && -xi <= q <= 0) by (nonlinear_arith)
                requires
                    nd > 0,
                    xi > 0,
                    nd == d * -1,
                    q == (xi / nd) * -1,
                    r == xi % nd,
            ;
            assert(x.checked_div(y) == Some(q as i64));
            assert(x.checked_rem(y) == Some(r as i64));
            assert((q as i64) as int == q && (r as i64) as int == r);
            assert(x == (q as i64) * y + (r as i64));
            assert(div_result(VVal::Whole(x), VVal::Whole(y)) == MOutcome::Ready(VVal::Whole(q as i64)));
            assert(rem_result(VVal::Whole(x), VVal::Whole(y)) == MOutcome::Ready(VVal::Whole(r as i64)));
        } else {
            assert(x.checked_div(y) == Some(0i64));
            assert(x.checked_rem(y) == Some(0i64));
            assert(x == 0i64 * y + 0i64);
        }
    }
}

} // verus!
