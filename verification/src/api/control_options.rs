//! Control options of a device and the validation of control requests
//! against them.
//!
//! The bounds of a range option are IEEE-754 single-precision numbers, held
//! here as their bit patterns (`f32::to_bits`); they are compared as `f32`
//! compares them.

use vstd::prelude::*;
use crate::string_map::{keys_unique, lemma_pairs_to_map_entries, text_map, StringMap};

verus! {

/// How a control option is operated.
#[derive(Clone, Copy, PartialEq, Eq, Structural, Debug)]
pub enum ControllerType {
    /// One value out of a list.
    Picker,
    /// A number between two bounds.
    Range,
    /// Free text.
    Input,
    /// A value the device reports.
    Read,
}

/// One control of a device.
#[derive(Debug, PartialEq)]
pub struct ControlOptions {
    pub name: String,
    pub opt_type: ControllerType,
    /// The allowed values of a picker.
    pub values: Vec<String>,
    /// Bit pattern of the `f32` lower bound of a range.
    pub range_min: u32,
    /// Bit pattern of the `f32` upper bound of a range.
    pub range_max: u32,
}

/// The mathematical value of a [`ControlOptions`].
pub struct ControlOptionsView {
    pub name: Seq<char>,
    pub opt_type: ControllerType,
    pub values: Seq<Seq<char>>,
    pub range_min: u32,
    pub range_max: u32,
}

/// The views of a vector of strings.
pub open spec fn strings_view(v: Seq<String>) -> Seq<Seq<char>> {
    v.map_values(|s: String| s@)
}

impl View for ControlOptions {
    type V = ControlOptionsView;

    open spec fn view(&self) -> ControlOptionsView {
        ControlOptionsView {
            name: self.name@,
            opt_type: self.opt_type,
            values: strings_view(self.values@),
            range_min: self.range_min,
            range_max: self.range_max,
        }
    }
}

/// The views of a sequence of control options.
pub open spec fn options_view(v: Seq<ControlOptions>) -> Seq<ControlOptionsView> {
    v.map_values(|o: ControlOptions| o@)
}

/// Bit pattern of the `f32` zero, the bound of every option but a range.
pub const F32_ZERO_BITS: u32 = 0;

/// A copy of a vector of strings.
pub fn clone_strings(v: &Vec<String>) -> (res: Vec<String>)
    ensures
        strings_view(res@) == strings_view(v@),
{
    let mut res: Vec<String> = Vec::new();
    let n = v.len();
    let mut i: usize = 0;
    while i < n
        invariant
            n == v@.len(),
            i <= n,
            strings_view(res@) == strings_view(v@.take(i as int)),
        decreases n - i,
    {
        let c = v[i].clone();
        assert(c@ == v@[i as int]@);
        let ghost before = res@;
        res.push(c);
        assert(res@ == before.push(c));
        assert(strings_view(res@) =~= strings_view(before).push(c@));
        assert(v@.take(i + 1) =~= v@.take(i as int).push(v@[i as int]));
        assert(strings_view(v@.take(i + 1)) =~= strings_view(v@.take(i as int)).push(v@[i as int]@));
        assert(strings_view(res@) =~= strings_view(v@.take(i + 1)));
        i = i + 1;
    }
    assert(v@.take(n as int) =~= v@);
    res
}

impl Clone for ControlOptions {
    fn clone(&self) -> (res: Self)
        ensures
            res@ == self@,
    {
        ControlOptions {
            name: self.name.clone(),
            opt_type: self.opt_type,
            values: clone_strings(&self.values),
            range_min: self.range_min,
            range_max: self.range_max,
        }
    }
}

/// A copy of a vector of control options.
pub fn clone_options(v: &Vec<ControlOptions>) -> (res: Vec<ControlOptions>)
    ensures
        options_view(res@) == options_view(v@),
{
    let mut res: Vec<ControlOptions> = Vec::new();
    let n = v.len();
    let mut i: usize = 0;
    while i < n
        invariant
            n == v@.len(),
            i <= n,
            options_view(res@) == options_view(v@.take(i as int)),
        decreases n - i,
    {
        let c = v[i].clone();
        assert(c@ == v@[i as int]@);
        let ghost before = res@;
        res.push(c);
        assert(res@ == before.push(c));
        assert(options_view(res@) =~= options_view(before).push(c@));
        assert(v@.take(i + 1) =~= v@.take(i as int).push(v@[i as int]));
        assert(options_view(v@.take(i + 1)) =~= options_view(v@.take(i as int)).push(v@[i as int]@));
        assert(options_view(res@) =~= options_view(v@.take(i + 1)));
        i = i + 1;
    }
    assert(v@.take(n as int) =~= v@);
    res
}

fn owned_strings(values: &Vec<&str>) -> (res: Vec<String>)
    ensures
        strings_view(res@) == values@.map_values(|s: &str| s@),
{
    let mut res: Vec<String> = Vec::new();
    let n = values.len();
    let mut i: usize = 0;
    while i < n
        invariant
            n == values@.len(),
            i <= n,
            strings_view(res@) == values@.take(i as int).map_values(|s: &str| s@),
        decreases n - i,
    {
        let c = values[i].to_owned();
        let ghost before = res@;
        res.push(c);
        assert(res@ == before.push(c));
        assert(strings_view(res@) =~= strings_view(before).push(c@));
        assert(values@.take(i + 1) =~= values@.take(i as int).push(values@[i as int]));
        assert(values@.take(i + 1).map_values(|s: &str| s@) =~= values@.take(i as int).map_values(|s: &str| s@).push(values@[i as int]@));
        assert(strings_view(res@) =~= values@.take(i + 1).map_values(|s: &str| s@));
        i = i + 1;
    }
    assert(values@.take(n as int) =~= values@);
    res
}

impl ControlOptions {
    /// A picker named `name` that allows exactly `values`.
    pub fn new_picker(name: &str, values: Vec<&str>) -> (res: ControlOptions)
        ensures
            res@ == (ControlOptionsView {
                name: name@,
                opt_type: ControllerType::Picker,
                values: values@.map_values(|s: &str| s@),
                range_min: F32_ZERO_BITS,
                range_max: F32_ZERO_BITS,
            }),
    {
        ControlOptions {
            name: name.to_owned(),
            opt_type: ControllerType::Picker,
            values: owned_strings(&values),
            range_min: F32_ZERO_BITS,
            range_max: F32_ZERO_BITS,
        }
    }

    /// A range named `name` between the `f32` bounds whose bit patterns are
    /// `range.0` and `range.1`.
    pub fn new_range(name: &str, range: (u32, u32)) -> (res: ControlOptions)
        ensures
            res@ == (ControlOptionsView {
                name: name@,
                opt_type: ControllerType::Range,
                values: Seq::<Seq<char>>::empty(),
                range_min: range.0,
                range_max: range.1,
            }),
    {
        let res = ControlOptions {
            name: name.to_owned(),
            opt_type: ControllerType::Range,
            values: Vec::new(),
            range_min: range.0,
            range_max: range.1,
        };
        assert(res@.values =~= Seq::<Seq<char>>::empty());
        res
    }

    /// A free-text input named `name`.
    pub fn new_input(name: &str) -> (res: ControlOptions)
        ensures
            res@ == (ControlOptionsView {
                name: name@,
                opt_type: ControllerType::Input,
                values: Seq::<Seq<char>>::empty(),
                range_min: F32_ZERO_BITS,
                range_max: F32_ZERO_BITS,
            }),
    {
        let res = ControlOptions {
            name: name.to_owned(),
            opt_type: ControllerType::Input,
            values: Vec::new(),
            range_min: F32_ZERO_BITS,
            range_max: F32_ZERO_BITS,
        };
        assert(res@.values =~= Seq::<Seq<char>>::empty());
        res
    }

    /// A reading named `name`.
    pub fn new_read(name: &str) -> (res: ControlOptions)
        ensures
            res@ == (ControlOptionsView {
                name: name@,
                opt_type: ControllerType::Read,
                values: Seq::<Seq<char>>::empty(),
                range_min: F32_ZERO_BITS,
                range_max: F32_ZERO_BITS,
            }),
    {
        let res = ControlOptions {
            name: name.to_owned(),
            opt_type: ControllerType::Read,
            values: Vec::new(),
            range_min: F32_ZERO_BITS,
            range_max: F32_ZERO_BITS,
        };
        assert(res@.values =~= Seq::<Seq<char>>::empty());
        res
    }
}


/// The order key of a non-NaN `f32` bit pattern: its magnitude, negated when
/// the sign bit is set, so that both zeros have key 0.
pub open spec fn f32_order_key(bits: u32) -> int {
    let magnitude = bits % 0x8000_0000;
    if bits >= 0x8000_0000 {
        -magnitude
    } else {
        magnitude as int
    }
}

/// Whether the bit pattern is a NaN: all exponent bits set and a nonzero
/// mantissa.
pub open spec fn f32_is_nan(bits: u32) -> bool {
    bits % 0x8000_0000 > 0x7F80_0000
}

/// `a < b` on the `f32` values of two bit patterns: false when either is
/// NaN, and otherwise the order of the real numbers (infinities at the ends).
pub open spec fn f32_less(a: u32, b: u32) -> bool {
    !f32_is_nan(a) && !f32_is_nan(b) && f32_order_key(a) < f32_order_key(b)
}

/// Computes [`f32_less`].
pub fn f32_bits_less(a: u32, b: u32) -> (res: bool)
    ensures
        res == f32_less(a, b),
{
    let ma = a % 0x8000_0000;
    let mb = b % 0x8000_0000;
    if ma > 0x7F80_0000 || mb > 0x7F80_0000 {
        return false;
    }
    let na = a >= 0x8000_0000;
    let nb = b >= 0x8000_0000;
    if na && nb {
        mb < ma
    } else if na {
        !(ma == 0 && mb == 0)
    } else if nb {
        false
    } else {
        ma < mb
    }
}

/// Why a control request was refused.
#[derive(Clone, Copy, PartialEq, Eq, Structural, Debug)]
pub enum ValidationError {
    /// A picker got a value outside its list.
    InvalidData,
    /// A range got a value that is not a number.
    InvalidType,
    /// A range got a number outside its bounds.
    OutOfRange,
}

impl ValidationError {
    /// The message the server reports.
    pub fn message(&self) -> (res: String)
        ensures
            res@ == self.spec_message(),
    {
        match self {
            ValidationError::InvalidData => str_to_string("Invalid data"),
            ValidationError::InvalidType => str_to_string("Invalid Type: required f32"),
            ValidationError::OutOfRange => str_to_string("Invalid value: out of range"),
        }
    }

    pub open spec fn spec_message(&self) -> Seq<char> {
        match self {
            ValidationError::InvalidData => "Invalid data"@,
            ValidationError::InvalidType => "Invalid Type: required f32"@,
            ValidationError::OutOfRange => "Invalid value: out of range"@,
        }
    }
}

fn str_to_string(s: &str) -> (res: String)
    ensures
        res@ == s@,
{
    s.to_owned()
}

/// The outcome of checking one value against the option it is meant for;
/// `number` is the bit pattern of the value read as an `f32`, if it reads as
/// one.
pub open spec fn check_value(
    opt: ControlOptionsView,
    value: Seq<char>,
    number: Option<u32>,
) -> Option<ValidationError> {
    match opt.opt_type {
        ControllerType::Picker => if opt.values.contains(value) {
            None
        } else {
            Some(ValidationError::InvalidData)
        },
        ControllerType::Range => match number {
            None => Some(ValidationError::InvalidType),
            Some(x) => if f32_less(x, opt.range_min) || f32_less(opt.range_max, x) {
                Some(ValidationError::OutOfRange)
            } else {
                None
            },
        },
        _ => None,
    }
}

/// The first option named `name`.
#[verifier::opaque]
pub open spec fn option_named(opts: Seq<ControlOptionsView>, name: Seq<char>) -> Option<int> {
    if exists|i: int| 0 <= i < opts.len() && opts[i].name == name {
        Some(
            choose|i: int|
                0 <= i < opts.len() && opts[i].name == name && forall|j: int|
                    0 <= j < i ==> opts[j].name != name,
        )
    } else {
        None
    }
}

/// What checking a control request comes to, entry by entry in order: the
/// first entry whose value is refused, or the first entry for which no option
/// exists, decides.
pub enum Validation {
    Valid,
    Invalid(ValidationError),
    /// An entry names no option (the request cannot be checked).
    UnknownOption(String),
}

/// The spec-level counterpart of [`Validation`].
pub enum ValidationView {
    Valid,
    Invalid(ValidationError),
    UnknownOption(Seq<char>),
}

impl View for Validation {
    type V = ValidationView;

    open spec fn view(&self) -> ValidationView {
        match self {
            Validation::Valid => ValidationView::Valid,
            Validation::Invalid(e) => ValidationView::Invalid(*e),
            Validation::UnknownOption(k) => ValidationView::UnknownOption(k@),
        }
    }
}

/// The number recorded for `key`, if any.
pub open spec fn number_of(numbers: Map<Seq<char>, u32>, key: Seq<char>) -> Option<u32> {
    if numbers.contains_key(key) {
        Some(numbers[key])
    } else {
        None
    }
}

/// Whether entry `i` names an option and that option accepts its value.
pub open spec fn entry_accepted(
    opts: Seq<ControlOptionsView>,
    entries: Seq<(Seq<char>, Seq<char>)>,
    numbers: Map<Seq<char>, u32>,
    i: int,
) -> bool {
    &&& option_named(opts, entries[i].0) is Some
    &&& check_value(
        opts[option_named(opts, entries[i].0)->0],
        entries[i].1,
        number_of(numbers, entries[i].0),
    ) is None
}

/// Checks the entries `(key, value)` in order against `opts`; `numbers` maps
/// each key whose value reads as an `f32` to that number's bit pattern.
pub open spec fn validation(
    opts: Seq<ControlOptionsView>,
    entries: Seq<(Seq<char>, Seq<char>)>,
    numbers: Map<Seq<char>, u32>,
) -> ValidationView
    decreases entries.len(),
{
    if entries.len() == 0 {
        ValidationView::Valid
    } else {
        let (key, value) = entries[0];
        match option_named(opts, key) {
            None => ValidationView::UnknownOption(key),
            Some(i) => match check_value(opts[i], value, number_of(numbers, key)) {
                Some(e) => ValidationView::Invalid(e),
                None => validation(opts, entries.skip(1), numbers),
            },
        }
    }
}

/// The entries of a string map, values taken by their view.
pub open spec fn text_entries(m: &StringMap<String>) -> Seq<(Seq<char>, Seq<char>)> {
    m.pairs().map_values(|e: (Seq<char>, String)| (e.0, e.1@))
}

/// What [`option_named`] finds: the first option of that name, if any.
pub proof fn lemma_option_named(opts: Seq<ControlOptionsView>, name: Seq<char>)
    ensures
        match option_named(opts, name) {
            Some(i) => 0 <= i < opts.len() && opts[i].name == name && forall|j: int|
                0 <= j < i ==> opts[j].name != name,
            None => forall|j: int| 0 <= j < opts.len() ==> opts[j].name != name,
        },
{
    reveal(option_named);
    if exists|i: int| 0 <= i < opts.len() && opts[i].name == name {
        let w = choose|i: int| 0 <= i < opts.len() && opts[i].name == name;
        lemma_first_exists(opts, name, w);
    }
}

proof fn lemma_first_exists(opts: Seq<ControlOptionsView>, name: Seq<char>, w: int)
    requires
        0 <= w < opts.len(),
        opts[w].name == name,
    ensures
        exists|i: int|
            0 <= i < opts.len() && opts[i].name == name && forall|j: int|
                0 <= j < i ==> opts[j].name != name,
    decreases w,
{
    if exists|j: int| 0 <= j < w && opts[j].name == name {
        let j = choose|j: int| 0 <= j < w && opts[j].name == name;
        lemma_first_exists(opts, name, j);
    }
}

fn first_option_named(opts: &Vec<ControlOptions>, name: &String) -> (res: Option<usize>)
    ensures
        match res {
            Some(i) => option_named(options_view(opts@), name@) == Some(i as int),
            None => option_named(options_view(opts@), name@) is None,
        },
{
    let ghost ov = options_view(opts@);
    let n = opts.len();
    let mut i: usize = 0;
    while i < n
        invariant
            n == opts@.len(),
            ov == options_view(opts@),
            i <= n,
            forall|j: int| 0 <= j < i ==> ov[j].name != name@,
        decreases n - i,
    {
        if opts[i].name == *name {
            proof {
                lemma_option_named(ov, name@);
                assert(ov[i as int].name == name@);
                let c = option_named(ov, name@)->0;
                if c < i {
                    assert(ov[c].name != name@);
                } else if c > i {
                    assert(ov[i as int].name != name@);
                }
            }
            return Some(i);
        }
        i = i + 1;
    }
    proof {
        lemma_option_named(ov, name@);
        if option_named(ov, name@) is Some {
            let c = option_named(ov, name@)->0;
            assert(ov[c].name != name@);
        }
    }
    None
}

fn contains_string(values: &Vec<String>, v: &String) -> (res: bool)
    ensures
        res == strings_view(values@).contains(v@),
{
    let n = values.len();
    let mut i: usize = 0;
    while i < n
        invariant
            n == values@.len(),
            i <= n,
            forall|j: int| 0 <= j < i ==> values@[j]@ != v@,
        decreases n - i,
    {
        if values[i] == *v {
            assert(strings_view(values@)[i as int] == v@);
            return true;
        }
        i = i + 1;
    }
    assert(!strings_view(values@).contains(v@)) by {
        if strings_view(values@).contains(v@) {
            let k = choose|k: int| 0 <= k < strings_view(values@).len() && strings_view(values@)[k] == v@;
            assert(values@[k]@ == v@);
        }
    }
    false
}

fn check_value_exec(opt: &ControlOptions, value: &String, number: Option<u32>) -> (res: Option<
    ValidationError,
>)
    ensures
        res == check_value(opt@, value@, number),
{
    match opt.opt_type {
        ControllerType::Picker => if contains_string(&opt.values, value) {
            None
        } else {
            Some(ValidationError::InvalidData)
        },
        ControllerType::Range => match number {
            None => Some(ValidationError::InvalidType),
            Some(x) => if f32_bits_less(x, opt.range_min) || f32_bits_less(opt.range_max, x) {
                Some(ValidationError::OutOfRange)
            } else {
                None
            },
        },
        _ => None,
    }
}

/// Checks a control request: `data` maps option names to values, and
/// `numbers` maps each name whose value reads as an `f32` to the bit
/// pattern of that number. The entries of `data` are taken in order.
pub fn check_control_data(
    control_options: &Vec<ControlOptions>,
    data: &StringMap<String>,
    numbers: &StringMap<u32>,
) -> (res: Validation)
    ensures
        res@ == validation(options_view(control_options@), text_entries(data), numbers@),
{
    let ghost opts = options_view(control_options@);
    let ghost entries = text_entries(data);
    let n = data.len();
    let mut i: usize = 0;
    assert(entries.skip(0) =~= entries);
    while i < n
        invariant
            n == data.pairs().len(),
            entries == text_entries(data),
            opts == options_view(control_options@),
            i <= n,
            validation(opts, entries, numbers@) == validation(opts, entries.skip(i as int), numbers@),
        decreases n - i,
    {
        let (key, value) = data.entry(i);
        let ghost rest = entries.skip(i as int);
        assert(rest[0] == (key@, value@));
        assert(rest.skip(1) =~= entries.skip(i + 1));
        proof {
            lemma_option_named(opts, key@);
        }
        match first_option_named(control_options, key) {
            None => {
                return Validation::UnknownOption(key.clone());
            },
            Some(j) => {
                let number = match numbers.get(key) {
                    Some(x) => Some(*x),
                    None => None,
                };
                match check_value_exec(&control_options[j], value, number) {
                    Some(e) => {
                        return Validation::Invalid(e);
                    },
                    None => {},
                }
            },
        }
        i = i + 1;
    }
    assert(entries.skip(n as int) =~= Seq::<(Seq<char>, Seq<char>)>::empty());
    Validation::Valid
}

/// Whether the check of a request names an unknown option, on which the
/// server stops.
pub open spec fn names_unknown_option(v: ValidationView) -> bool {
    v is UnknownOption
}

/// Validates a control request: `Ok` when every entry of `data` is accepted
/// by the option of its name, else the error of the first refused entry.
/// `numbers` maps each name whose value reads as an `f32` to the bit pattern
/// of that number. Requests that reach an entry naming no option are left
/// out: the server stops on them.
pub fn validate_control_data(
    control_options: Vec<ControlOptions>,
    data: &StringMap<String>,
    numbers: &StringMap<u32>,
) -> (res: Result<(), ValidationError>)
    requires
        !names_unknown_option(
            validation(options_view(control_options@), text_entries(data), numbers@),
        ),
    ensures
        match validation(options_view(control_options@), text_entries(data), numbers@) {
            ValidationView::Valid => res is Ok,
            ValidationView::Invalid(e) => res == Err::<(), ValidationError>(e),
            ValidationView::UnknownOption(_) => false,
        },
{
    match check_control_data(&control_options, data, numbers) {
        Validation::Valid => Ok(()),
        Validation::Invalid(e) => Err(e),
        Validation::UnknownOption(_) => Err(ValidationError::InvalidData),
    }
}

/// A request is valid exactly when every entry names an option and that
/// option accepts the entry's value; otherwise the check names the first
/// entry that does not pass.
pub proof fn lemma_valid_iff_all_accepted(
    opts: Seq<ControlOptionsView>,
    entries: Seq<(Seq<char>, Seq<char>)>,
    numbers: Map<Seq<char>, u32>,
)
    ensures
        (validation(opts, entries, numbers) == ValidationView::Valid) <==> (forall|i: int|
            0 <= i < entries.len() ==> #[trigger] entry_accepted(opts, entries, numbers, i)),
    decreases entries.len(),
{
    if entries.len() > 0 {
        let rest = entries.skip(1);
        lemma_valid_iff_all_accepted(opts, rest, numbers);
        assert forall|i: int| 0 <= i < rest.len() implies #[trigger] entry_accepted(
            opts,
            rest,
            numbers,
            i,
        ) == entry_accepted(opts, entries, numbers, i + 1) by {
            assert(rest[i] == entries[i + 1]);
        }
        if validation(opts, entries, numbers) == ValidationView::Valid {
            assert forall|i: int| 0 <= i < entries.len() implies #[trigger] entry_accepted(
                opts,
                entries,
                numbers,
                i,
            ) by {
                if i > 0 {
                    assert(entry_accepted(opts, rest, numbers, i - 1));
                }
            }
        }
        if forall|i: int| 0 <= i < entries.len() ==> #[trigger] entry_accepted(opts, entries, numbers, i) {
            assert(entry_accepted(opts, entries, numbers, 0));
            assert forall|i: int| 0 <= i < rest.len() implies #[trigger] entry_accepted(
                opts,
                rest,
                numbers,
                i,
            ) by {
                assert(entry_accepted(opts, entries, numbers, i + 1));
            }
        }
    }
}

/// Comparing bit patterns as `f32` is a strict order on the non-NaN values,
/// and a NaN is neither below nor above anything.
pub proof fn lemma_f32_less_strict_order(a: u32, b: u32, c: u32)
    ensures
        !f32_less(a, a),
        f32_less(a, b) ==> !f32_less(b, a),
        f32_less(a, b) && f32_less(b, c) ==> f32_less(a, c),
        f32_is_nan(a) ==> !f32_less(a, b) && !f32_less(b, a),
{
}

/// A range accepts its own bounds (the bounds are inclusive), provided they
/// are in order.
pub proof fn lemma_range_accepts_bounds(opt: ControlOptionsView, value: Seq<char>)
    requires
        opt.opt_type == ControllerType::Range,
        !f32_less(opt.range_max, opt.range_min),
    ensures
        check_value(opt, value, Some(opt.range_min)) is None,
        check_value(opt, value, Some(opt.range_max)) is None,
{
}

/// A picker accepts exactly its values, and inputs and readings accept any
/// value.
pub proof fn lemma_accepted_values(opt: ControlOptionsView, value: Seq<char>, number: Option<u32>)
    ensures
        opt.opt_type == ControllerType::Picker ==> (check_value(opt, value, number) is None
            <==> opt.values.contains(value)),
        opt.opt_type == ControllerType::Input ==> check_value(opt, value, number) is None,
        opt.opt_type == ControllerType::Read ==> check_value(opt, value, number) is None,
{
}

/// The empty request is valid, whatever the options.
pub proof fn lemma_empty_request_valid(opts: Seq<ControlOptionsView>, numbers: Map<Seq<char>, u32>)
    ensures
        validation(opts, Seq::<(Seq<char>, Seq<char>)>::empty(), numbers) == ValidationView::Valid,
{
}

/// Validation is monotone: a request made of entries of a valid request,
/// each with the same number, is valid.
pub proof fn lemma_validation_monotone(
    opts: Seq<ControlOptionsView>,
    entries: Seq<(Seq<char>, Seq<char>)>,
    numbers: Map<Seq<char>, u32>,
    sub: Seq<(Seq<char>, Seq<char>)>,
    sub_numbers: Map<Seq<char>, u32>,
)
    requires
        validation(opts, entries, numbers) == ValidationView::Valid,
        forall|i: int|
            0 <= i < sub.len() ==> exists|j: int| 0 <= j < entries.len() && entries[j] == #[trigger] sub[i],
        forall|i: int|
            0 <= i < sub.len() ==> number_of(sub_numbers, (#[trigger] sub[i]).0) == number_of(
                numbers,
                sub[i].0,
            ),
    ensures
        validation(opts, sub, sub_numbers) == ValidationView::Valid,
{
    lemma_valid_iff_all_accepted(opts, entries, numbers);
    lemma_valid_iff_all_accepted(opts, sub, sub_numbers);
    assert forall|i: int| 0 <= i < sub.len() implies #[trigger] entry_accepted(
        opts,
        sub,
        sub_numbers,
        i,
    ) by {
        let j = choose|j: int| 0 <= j < entries.len() && entries[j] == sub[i];
        assert(entry_accepted(opts, entries, numbers, j));
    }
}

/// The monotonicity of validation over data maps: data whose entries are
/// all entries of valid data, with the same numbers, is valid.
pub proof fn lemma_validation_monotone_maps(
    opts: Seq<ControlOptionsView>,
    data: StringMap<String>,
    numbers: Map<Seq<char>, u32>,
    sub: StringMap<String>,
    sub_numbers: Map<Seq<char>, u32>,
)
    requires
        keys_unique(data.pairs()),
        keys_unique(sub.pairs()),
        validation(opts, text_entries(&data), numbers) == ValidationView::Valid,
        text_map(&sub).submap_of(text_map(&data)),
        forall|k: Seq<char>|
            #[trigger] text_map(&sub).contains_key(k) ==> number_of(sub_numbers, k) == number_of(
                numbers,
                k,
            ),
    ensures
        validation(opts, text_entries(&sub), sub_numbers) == ValidationView::Valid,
{
    let entries = text_entries(&data);
    let se = text_entries(&sub);
    lemma_pairs_to_map_entries(data.pairs());
    lemma_pairs_to_map_entries(sub.pairs());
    assert forall|i: int| 0 <= i < se.len() implies exists|j: int|
        0 <= j < entries.len() && entries[j] == #[trigger] se[i] by {
        let k = sub.pairs()[i].0;
        assert(sub@.contains_key(k));
        assert(text_map(&sub).contains_key(k));
        assert(text_map(&data).contains_key(k));
        assert(data@.contains_key(k));
        let j = choose|j: int| 0 <= j < data.pairs().len() && data.pairs()[j].0 == k;
        assert(data@[k] == data.pairs()[j].1);
        assert(text_map(&data)[k] == text_map(&sub)[k]);
        assert(entries[j] == se[i]);
    }
    assert forall|i: int| 0 <= i < se.len() implies number_of(sub_numbers, (#[trigger] se[i]).0)
        == number_of(numbers, se[i].0) by {
        let k = sub.pairs()[i].0;
        assert(sub@.contains_key(k));
        assert(text_map(&sub).contains_key(k));
    }
    lemma_validation_monotone(opts, entries, numbers, se, sub_numbers);
}

} // verus!
