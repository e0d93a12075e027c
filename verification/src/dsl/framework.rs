use vstd::prelude::*;

verus! {

/// The shape that a data type gives its elements.
#[derive(Clone, Copy, Debug, PartialEq, Eq, Structural)]
pub enum ElementType {
    Num,
    ManyNum(usize),
    Str,
}

/// A value held in the memory of a program.
#[derive(Debug)]
pub enum Element {
    Num(i32),
    ManyNum(Vec<i32>),
    Str(Vec<u8>),
}

/// The mathematical content of an `Element`.
pub enum ElementV {
    Num(i32),
    ManyNum(Seq<i32>),
    Str(Seq<u8>),
}

impl View for Element {
    type V = ElementV;

    open spec fn view(&self) -> ElementV {
        match self {
            Element::Num(v) => ElementV::Num(*v),
            Element::ManyNum(v) => ElementV::ManyNum(v@),
            Element::Str(v) => ElementV::Str(v@),
        }
    }
}

impl Clone for Element {
    fn clone(&self) -> (r: Element)
        ensures
            r@ == self@,
    {
        match self {
            Element::Num(v) => Element::Num(*v),
            Element::ManyNum(v) => {
                let w = v.clone();
                assert(w@ =~= v@);
                Element::ManyNum(w)
            },
            Element::Str(v) => {
                let w = v.clone();
                assert(w@ =~= v@);
                Element::Str(w)
            },
        }
    }
}

/// `e` fits the shape that `t` prescribes.
pub open spec fn element_fits(e: ElementV, t: ElementType) -> bool {
    match (e, t) {
        (ElementV::Num(_), ElementType::Num) => true,
        (ElementV::ManyNum(v), ElementType::ManyNum(n)) => v.len() == n,
        (ElementV::Str(_), ElementType::Str) => true,
        _ => false,
    }
}

/// A typed entry of the memory.
#[derive(Debug)]
pub struct MemoryEntry {
    pub data_type: String,
    pub data: Element,
}

/// The content of a memory entry: its data type's name and its value.
pub type EntryV = (Seq<char>, ElementV);

impl View for MemoryEntry {
    type V = EntryV;

    open spec fn view(&self) -> EntryV {
        (self.data_type@, self.data@)
    }
}

impl Clone for MemoryEntry {
    fn clone(&self) -> (r: MemoryEntry)
        ensures
            r@ == self@,
    {
        MemoryEntry { data_type: self.data_type.clone(), data: self.data.clone() }
    }
}

impl MemoryEntry {
    pub fn new(data_type: &str, data: Element) -> (r: MemoryEntry)
        ensures
            r@ == (data_type@, data@),
    {
        MemoryEntry { data_type: data_type.to_owned(), data }
    }
}

/// The views of a sequence of entries.
pub open spec fn entries_v(s: Seq<MemoryEntry>) -> Seq<EntryV> {
    s.map_values(|e: MemoryEntry| e@)
}

/// What a trace generator hands back: the new elements of the memory and the
/// hints that the script will consume.
pub struct FunctionOutput {
    pub new_elements: Vec<MemoryEntry>,
    pub new_hints: Vec<MemoryEntry>,
}

/// The content of a `FunctionOutput`: new elements, then new hints.
pub type OutputV = (Seq<EntryV>, Seq<EntryV>);

impl View for FunctionOutput {
    type V = OutputV;

    open spec fn view(&self) -> OutputV {
        (entries_v(self.new_elements@), entries_v(self.new_hints@))
    }
}

/// Why a program step was refused.
#[derive(Clone, Copy, Debug, PartialEq, Eq, Structural)]
pub enum DslError {
    /// The data type is not registered.
    UnknownDataType,
    /// A data type of that name is already registered.
    DuplicateDataType,
    /// No function of that name is registered.
    UnknownFunction,
    /// A function of that name is already registered.
    DuplicateFunction,
    /// The function takes another number of inputs.
    WrongNumberOfInputs,
    /// A memory index points past the memory.
    IndexOutOfRange,
    /// An element does not have the shape that its use needs.
    WrongElement,
    /// An input has another data type than the function declares.
    TypeMismatch,
    /// A value is out of the range that its data type allows.
    MalformedElement,
    /// The two elements compared by an equality check differ.
    EqualverifyFails,
    /// The element has no inverse.
    NotInvertible,
    /// The swap bit is neither 0 nor 1.
    InvalidSwapBit,
    /// An option that the function needs is missing or has another shape.
    InvalidOption,
    /// The proof handed to the function (a Merkle path's verdict, or a proof
    /// of work with too few zero bits) does not verify.
    InvalidProof,
}

/// A result with the errors of this module.
pub type Result<T> = core::result::Result<T, DslError>;

/// A value handed to a function besides its inputs.
#[derive(Debug)]
pub enum OptionValue {
    U32(u32),
    U64(u64),
    MultiU32(Vec<u32>),
    Binary(Vec<u8>),
    MultiBinary(Vec<Vec<u8>>),
}

/// Named values handed to a function besides its inputs.
#[derive(Debug)]
pub struct Options {
    pub entries: Vec<(String, OptionValue)>,
}

/// The value that `entries` holds under `name`, if any: the first entry of
/// that name decides.
pub open spec fn option_named(entries: Seq<(String, OptionValue)>, name: Seq<char>) -> Option<OptionValue>
    decreases entries.len(),
{
    if entries.len() == 0 {
        None
    } else if entries[0].0@ == name {
        Some(entries[0].1)
    } else {
        option_named(entries.drop_first(), name)
    }
}

/// The `u32` held under `name`, if the value there is one.
pub open spec fn option_u32(entries: Seq<(String, OptionValue)>, name: Seq<char>) -> Option<u32> {
    match option_named(entries, name) {
        Some(OptionValue::U32(v)) => Some(v),
        _ => None,
    }
}

/// The `u64` held under `name`, if the value there is one.
pub open spec fn option_u64(entries: Seq<(String, OptionValue)>, name: Seq<char>) -> Option<u64> {
    match option_named(entries, name) {
        Some(OptionValue::U64(v)) => Some(v),
        _ => None,
    }
}

/// The `u32` values held under `name`, if the value there is a list of them.
pub open spec fn option_multi_u32(entries: Seq<(String, OptionValue)>, name: Seq<char>) -> Option<Seq<u32>> {
    match option_named(entries, name) {
        Some(OptionValue::MultiU32(v)) => Some(v@),
        _ => None,
    }
}

/// The bytes held under `name`, if the value there is a byte string.
pub open spec fn option_binary(entries: Seq<(String, OptionValue)>, name: Seq<char>) -> Option<Seq<u8>> {
    match option_named(entries, name) {
        Some(OptionValue::Binary(v)) => Some(v@),
        _ => None,
    }
}

/// The byte strings of a list of them.
pub open spec fn byte_strings(v: Seq<Vec<u8>>) -> Seq<Seq<u8>> {
    v.map_values(|b: Vec<u8>| b@)
}

/// The byte strings held under `name`, if the value there is a list of them.
pub open spec fn option_multi_binary(entries: Seq<(String, OptionValue)>, name: Seq<char>) -> Option<
    Seq<Seq<u8>>,
> {
    match option_named(entries, name) {
        Some(OptionValue::MultiBinary(v)) => Some(byte_strings(v@)),
        _ => None,
    }
}

/// A copy of the values `s`.
pub fn copy_u32s(s: &[u32]) -> (r: Vec<u32>)
    ensures
        r@ == s@,
{
    let mut r = Vec::new();
    let mut i: usize = 0;
    while i < s.len()
        invariant
            0 <= i <= s@.len(),
            r@ == s@.subrange(0, i as int),
        decreases s@.len() - i,
    {
        r.push(s[i]);
        i = i + 1;
        assert(r@ =~= s@.subrange(0, i as int));
    }
    assert(r@ =~= s@);
    r
}

/// A copy of the bytes `s`.
pub fn copy_bytes(s: &[u8]) -> (r: Vec<u8>)
    ensures
        r@ == s@,
{
    let mut r = Vec::new();
    let mut i: usize = 0;
    while i < s.len()
        invariant
            0 <= i <= s@.len(),
            r@ == s@.subrange(0, i as int),
        decreases s@.len() - i,
    {
        r.push(s[i]);
        i = i + 1;
        assert(r@ =~= s@.subrange(0, i as int));
    }
    assert(r@ =~= s@);
    r
}

/// A copy of the byte strings `s`.
pub fn copy_byte_strings(s: &[Vec<u8>]) -> (r: Vec<Vec<u8>>)
    ensures
        byte_strings(r@) == byte_strings(s@),
{
    let mut r: Vec<Vec<u8>> = Vec::new();
    let mut i: usize = 0;
    while i < s.len()
        invariant
            0 <= i <= s@.len(),
            r@.len() == i,
            forall|k: int| 0 <= k < i ==> (#[trigger] r@[k])@ == s@[k]@,
        decreases s@.len() - i,
    {
        let b = copy_bytes(s[i].as_slice());
        r.push(b);
        i = i + 1;
    }
    assert(byte_strings(r@) =~= byte_strings(s@)) by {
        assert forall|k: int| 0 <= k < s@.len() implies #[trigger] byte_strings(r@)[k] == byte_strings(s@)[k] by {
            assert(r@[k]@ == s@[k]@);
        }
    }
    r
}

impl Options {
    pub fn new() -> (r: Options)
        ensures
            r.entries@.len() == 0,
    {
        Options { entries: Vec::new() }
    }

    /// Adds `v` under `name`, after the entries already there.
    fn with_value(self, name: &str, v: OptionValue) -> (r: Options)
        ensures
            r.entries@.len() == self.entries@.len() + 1,
            forall|i: int| 0 <= i < self.entries@.len() ==> #[trigger] r.entries@[i] == self.entries@[i],
            r.entries@.last().0@ == name@,
            r.entries@.last().1 == v,
    {
        let mut entries = self.entries;
        entries.push((name.to_owned(), v));
        Options { entries }
    }

    /// Adds a `u32` under `name`, after the entries already there.
    pub fn with_u32(self, name: &str, v: u32) -> (r: Options)
        ensures
            r.entries@.len() == self.entries@.len() + 1,
            forall|i: int| 0 <= i < self.entries@.len() ==> #[trigger] r.entries@[i] == self.entries@[i],
            r.entries@.last().0@ == name@,
            r.entries@.last().1 == OptionValue::U32(v),
    {
        self.with_value(name, OptionValue::U32(v))
    }

    /// Adds a `u64` under `name`, after the entries already there.
    pub fn with_u64(self, name: &str, v: u64) -> (r: Options)
        ensures
            r.entries@.len() == self.entries@.len() + 1,
            forall|i: int| 0 <= i < self.entries@.len() ==> #[trigger] r.entries@[i] == self.entries@[i],
            r.entries@.last().0@ == name@,
            r.entries@.last().1 == OptionValue::U64(v),
    {
        self.with_value(name, OptionValue::U64(v))
    }

    /// Adds a list of `u32` values under `name`, after the entries already
    /// there.
    pub fn with_multi_u32(self, name: &str, v: Vec<u32>) -> (r: Options)
        ensures
            r.entries@.len() == self.entries@.len() + 1,
            forall|i: int| 0 <= i < self.entries@.len() ==> #[trigger] r.entries@[i] == self.entries@[i],
            r.entries@.last().0@ == name@,
            r.entries@.last().1 == OptionValue::MultiU32(v),
    {
        self.with_value(name, OptionValue::MultiU32(v))
    }

    /// Adds a byte string under `name`, after the entries already there.
    pub fn with_binary(self, name: &str, v: Vec<u8>) -> (r: Options)
        ensures
            r.entries@.len() == self.entries@.len() + 1,
            forall|i: int| 0 <= i < self.entries@.len() ==> #[trigger] r.entries@[i] == self.entries@[i],
            r.entries@.last().0@ == name@,
            r.entries@.last().1 == OptionValue::Binary(v),
    {
        self.with_value(name, OptionValue::Binary(v))
    }

    /// Adds a list of byte strings under `name`, after the entries already
    /// there.
    pub fn with_multi_binary(self, name: &str, v: Vec<Vec<u8>>) -> (r: Options)
        ensures
            r.entries@.len() == self.entries@.len() + 1,
            forall|i: int| 0 <= i < self.entries@.len() ==> #[trigger] r.entries@[i] == self.entries@[i],
            r.entries@.last().0@ == name@,
            r.entries@.last().1 == OptionValue::MultiBinary(v),
    {
        self.with_value(name, OptionValue::MultiBinary(v))
    }

    /// The value held under `name`: the first entry of that name.
    fn find(&self, name: &str) -> (r: Option<&OptionValue>)
        ensures
            match r {
                Some(v) => option_named(self.entries@, name@) == Some(*v),
                None => option_named(self.entries@, name@) is None,
            },
    {
        let key = name.to_owned();
        let mut i: usize = 0;
        assert(self.entries@.skip(0) =~= self.entries@);
        while i < self.entries.len()
            invariant
                0 <= i <= self.entries@.len(),
                key@ == name@,
                option_named(self.entries@, name@) == option_named(self.entries@.skip(i as int), name@),
            decreases self.entries@.len() - i,
        {
            assert(self.entries@.skip(i as int).drop_first() =~= self.entries@.skip(i + 1));
            if self.entries[i].0 == key {
                return Some(&self.entries[i].1);
            }
            i = i + 1;
        }
        None
    }

    /// The `u32` held under `name`.
    pub fn get_u32(&self, name: &str) -> (r: Result<u32>)
        ensures
            r == (match option_u32(self.entries@, name@) {
                Some(v) => Ok(v),
                None => Err(DslError::InvalidOption),
            }),
    {
        match self.find(name) {
            Some(OptionValue::U32(v)) => Ok(*v),
            _ => Err(DslError::InvalidOption),
        }
    }

    /// The `u64` held under `name`.
    pub fn get_u64(&self, name: &str) -> (r: Result<u64>)
        ensures
            r == (match option_u64(self.entries@, name@) {
                Some(v) => Ok(v),
                None => Err(DslError::InvalidOption),
            }),
    {
        match self.find(name) {
            Some(OptionValue::U64(v)) => Ok(*v),
            _ => Err(DslError::InvalidOption),
        }
    }

    /// The list of `u32` values held under `name`.
    pub fn get_multi_u32(&self, name: &str) -> (r: Result<Vec<u32>>)
        ensures
            match r {
                Ok(v) => option_multi_u32(self.entries@, name@) == Some(v@),
                Err(e) => option_multi_u32(self.entries@, name@) is None && e == DslError::InvalidOption,
            },
    {
        match self.find(name) {
            Some(OptionValue::MultiU32(v)) => Ok(copy_u32s(v.as_slice())),
            _ => Err(DslError::InvalidOption),
        }
    }

    /// The byte string held under `name`.
    pub fn get_binary(&self, name: &str) -> (r: Result<Vec<u8>>)
        ensures
            match r {
                Ok(v) => option_binary(self.entries@, name@) == Some(v@),
                Err(e) => option_binary(self.entries@, name@) is None && e == DslError::InvalidOption,
            },
    {
        match self.find(name) {
            Some(OptionValue::Binary(v)) => Ok(copy_bytes(v.as_slice())),
            _ => Err(DslError::InvalidOption),
        }
    }

    /// The list of byte strings held under `name`.
    pub fn get_multi_binary(&self, name: &str) -> (r: Result<Vec<Vec<u8>>>)
        ensures
            match r {
                Ok(v) => option_multi_binary(self.entries@, name@) == Some(byte_strings(v@)),
                Err(e) => option_multi_binary(self.entries@, name@) is None && e == DslError::InvalidOption,
            },
    {
        match self.find(name) {
            Some(OptionValue::MultiBinary(v)) => Ok(copy_byte_strings(v.as_slice())),
            _ => Err(DslError::InvalidOption),
        }
    }
}

} // verus!

verus! {

/// Some entry of `s` is named `name`.
pub open spec fn has_name<T>(s: Seq<(String, T)>, name: Seq<char>) -> bool {
    exists|i: int| 0 <= i < s.len() && #[trigger] s[i].0@ == name
}

/// The position of the first entry of `s` named `name`.
pub open spec fn first_named<T>(s: Seq<(String, T)>, name: Seq<char>, i: int) -> bool {
    &&& 0 <= i < s.len()
    &&& s[i].0@ == name
    &&& forall|j: int| 0 <= j < i ==> #[trigger] s[j].0@ != name
}

/// Finds the first entry of `s` named `name`.
pub(crate) fn find_named<T>(s: &Vec<(String, T)>, name: &str) -> (r: Option<usize>)
    ensures
        match r {
            Some(i) => first_named(s@, name@, i as int),
            None => !has_name(s@, name@),
        },
{
    let key = name.to_owned();
    let mut i: usize = 0;
    while i < s.len()
        invariant
            0 <= i <= s@.len(),
            key@ == name@,
            forall|j: int| 0 <= j < i ==> #[trigger] s@[j].0@ != name@,
        decreases s@.len() - i,
    {
        if s[i].0 == key {
            return Some(i);
        }
        i = i + 1;
    }
    None
}

/// The generators of traces that the built-in functions run.
#[derive(Clone, Copy, Debug, PartialEq, Eq, Structural)]
pub enum TraceGenerator {
    PushTable,
    M31ToLimbs,
    M31LimbsEqualverify,
    M31LimbsMul,
    M31LimbsInverse,
    M31Equalverify,
    Cm31ToLimbs,
    Cm31LimbsEqualverify,
    Cm31LimbsMul,
    Cm31LimbsInverse,
    Cm31Recompose,
    Cm31Equalverify,
    Cm31Add,
    Cm31AddM31,
    Cm31Sub,
    Cm31LimbsReal,
    Cm31LimbsImag,
    Cm31Real,
    Cm31Imag,
    Cm31FromRealAndImag,
    Qm31ToLimbs,
    Qm31LimbsEqualverify,
    Qm31LimbsMul,
    Qm31LimbsFirst,
    Qm31LimbsSecond,
    Qm31Equalverify,
    Qm31First,
    Qm31Second,
    Qm31OneAdd,
    Qm31OneSub,
    Qm31Neg,
    Qm31Add,
    Qm31Sub,
    Qm31FromFirstAndSecond,
    Qm31AddCm31,
    Qm31AddM31,
    Qm31ShiftByI,
    Qm31ShiftByJ,
    Qm31ShiftByIj,
    Qm31LimbsInverse,
    Qm31ConditionalSwap,
    DecomposePositionsTo5,
    SelectAmongEight,
    MixDigest,
    MerkleTwinTree1,
    MerkleTwinTree4,
    RawMerkleTree,
    PrecomputedMerkleTree14,
    PrecomputedMerkleTree15,
    VerifyPow,
}

/// How a function is run and what it takes and gives: the names of the data
/// types of its inputs (a leading `&` marks an input that stays in place) and
/// of its outputs.
pub struct FunctionMetadata {
    pub trace_generator: TraceGenerator,
    pub input: Vec<&'static str>,
    pub output: Vec<&'static str>,
}

/// A program under construction: the registered data types and functions, the
/// memory of its values, and the hints, inputs and outputs of the program.
pub struct DSL {
    pub data_types: Vec<(String, ElementType)>,
    pub functions: Vec<(String, FunctionMetadata)>,
    pub memory: Vec<MemoryEntry>,
    pub hints: Vec<MemoryEntry>,
    pub input_indices: Vec<usize>,
    pub output_indices: Vec<usize>,
}

/// What `get_num` gives for index `i`.
pub open spec fn num_at(mem: Seq<EntryV>, i: int) -> Result<i32> {
    if 0 <= i < mem.len() {
        match mem[i].1 {
            ElementV::Num(v) => Ok(v),
            _ => Err(DslError::WrongElement),
        }
    } else {
        Err(DslError::IndexOutOfRange)
    }
}

/// What `get_many_num` gives for index `i`.
pub open spec fn many_at(mem: Seq<EntryV>, i: int) -> Result<Seq<i32>> {
    if 0 <= i < mem.len() {
        match mem[i].1 {
            ElementV::ManyNum(v) => Ok(v),
            _ => Err(DslError::WrongElement),
        }
    } else {
        Err(DslError::IndexOutOfRange)
    }
}

/// What `get_str` gives for index `i`.
pub open spec fn str_at(mem: Seq<EntryV>, i: int) -> Result<Seq<u8>> {
    if 0 <= i < mem.len() {
        match mem[i].1 {
            ElementV::Str(v) => Ok(v),
            _ => Err(DslError::WrongElement),
        }
    } else {
        Err(DslError::IndexOutOfRange)
    }
}

/// The data type `name` is registered and accepts the element `e`.
pub open spec fn type_accepts(data_types: Seq<(String, ElementType)>, name: Seq<char>, e: ElementV) -> bool {
    exists|i: int| first_named(data_types, name, i) && element_fits(e, #[trigger] data_types[i].1)
}

/// The error with which an element is refused by the data types.
pub open spec fn refusal(data_types: Seq<(String, ElementType)>, name: Seq<char>) -> DslError {
    if has_name(data_types, name) {
        DslError::WrongElement
    } else {
        DslError::UnknownDataType
    }
}

impl DSL {
    /// The values in the memory.
    pub open spec fn mem(&self) -> Seq<EntryV> {
        entries_v(self.memory@)
    }

    /// The hints collected so far.
    pub open spec fn hint_v(&self) -> Seq<EntryV> {
        entries_v(self.hints@)
    }

    /// `self` differs from `old` only by entries appended to its memory and
    /// its hints.
    pub open spec fn extends(&self, old: &DSL) -> bool {
        &&& self.data_types@ == old.data_types@
        &&& self.functions@ == old.functions@
        &&& self.input_indices@ == old.input_indices@
        &&& self.output_indices@ == old.output_indices@
        &&& old.mem().len() <= self.mem().len()
        &&& forall|i: int| 0 <= i < old.mem().len() ==> #[trigger] self.mem()[i] == old.mem()[i]
        &&& old.hint_v().len() <= self.hint_v().len()
        &&& forall|i: int| 0 <= i < old.hint_v().len() ==> #[trigger] self.hint_v()[i] == old.hint_v()[i]
    }

    pub fn new() -> (r: DSL)
        ensures
            r.data_types@.len() == 0,
            r.functions@.len() == 0,
            r.memory@.len() == 0,
            r.hints@.len() == 0,
            r.input_indices@.len() == 0,
            r.output_indices@.len() == 0,
    {
        DSL {
            data_types: Vec::new(),
            functions: Vec::new(),
            memory: Vec::new(),
            hints: Vec::new(),
            input_indices: Vec::new(),
            output_indices: Vec::new(),
        }
    }

    /// Registers a data type; a name can be registered once.
    pub fn add_data_type(&mut self, name: &str, element_type: ElementType) -> (r: Result<()>)
        ensures
            has_name(old(self).data_types@, name@) ==> r == Err::<(), DslError>(
                DslError::DuplicateDataType,
            ),
            has_name(old(self).data_types@, name@) ==> final(self).data_types@ == old(self).data_types@,
            !has_name(old(self).data_types@, name@) ==> r is Ok,
            !has_name(old(self).data_types@, name@) ==> final(self).data_types@ == old(self).data_types@.push((final(self).data_types@.last().0, element_type)),
            !has_name(old(self).data_types@, name@) ==> final(self).data_types@.last().0@ == name@,
            final(self).functions@ == old(self).functions@,
            final(self).memory@ == old(self).memory@,
            final(self).hints@ == old(self).hints@,
            final(self).input_indices@ == old(self).input_indices@,
            final(self).output_indices@ == old(self).output_indices@,
    {
        match find_named(&self.data_types, name) {
            Some(_) => Err(DslError::DuplicateDataType),
            None => {
                self.data_types.push((name.to_owned(), element_type));
                Ok(())
            },
        }
    }

    /// Registers a function; a name can be registered once.
    pub fn add_function(&mut self, name: &str, metadata: FunctionMetadata) -> (r: Result<()>)
        ensures
            has_name(old(self).functions@, name@) ==> r == Err::<(), DslError>(
                DslError::DuplicateFunction,
            ),
            has_name(old(self).functions@, name@) ==> final(self).functions@ == old(self).functions@,
            !has_name(old(self).functions@, name@) ==> r is Ok,
            !has_name(old(self).functions@, name@) ==> final(self).functions@.len() == old(self).functions@.len() + 1,
            !has_name(old(self).functions@, name@) ==> final(self).functions@.last().0@ == name@,
            !has_name(old(self).functions@, name@) ==> final(self).functions@.last().1 == metadata,
            !has_name(old(self).functions@, name@) ==> final(self).functions@.drop_last() == old(self).functions@,
            final(self).data_types@ == old(self).data_types@,
            final(self).memory@ == old(self).memory@,
            final(self).hints@ == old(self).hints@,
            final(self).input_indices@ == old(self).input_indices@,
            final(self).output_indices@ == old(self).output_indices@,
    {
        match find_named(&self.functions, name) {
            Some(_) => Err(DslError::DuplicateFunction),
            None => {
                self.functions.push((name.to_owned(), metadata));
                assert(self.functions@.drop_last() =~= old(self).functions@);
                Ok(())
            },
        }
    }

    /// Checks that `data` fits a registered data type named `data_type` and
    /// makes the entry.
    fn typed_entry(&self, data_type: &str, data: Element) -> (r: Result<MemoryEntry>)
        ensures
            r is Ok <==> type_accepts(self.data_types@, data_type@, data@),
            r matches Err(e) ==> e == refusal(self.data_types@, data_type@),
            match r {
                Ok(e) => e@ == (data_type@, data@) && exists|i: int|
                    first_named(self.data_types@, data_type@, i) && element_fits(
                        data@,
                        #[trigger] self.data_types@[i].1,
                    ),
                Err(err) => {
                    ||| !has_name(self.data_types@, data_type@) && err == DslError::UnknownDataType
                    ||| exists|i: int|
                        first_named(self.data_types@, data_type@, i) && !element_fits(
                            data@,
                            #[trigger] self.data_types@[i].1,
                        ) && err == DslError::WrongElement
                },
            },
    {
        match find_named(&self.data_types, data_type) {
            None => Err(DslError::UnknownDataType),
            Some(i) => {
                let t = self.data_types[i].1;
                let fits = match (&data, t) {
                    (Element::Num(_), ElementType::Num) => true,
                    (Element::ManyNum(v), ElementType::ManyNum(n)) => v.len() == n,
                    (Element::Str(_), ElementType::Str) => true,
                    _ => false,
                };
                if fits {
                    Ok(MemoryEntry::new(data_type, data))
                } else {
                    Err(DslError::WrongElement)
                }
            },
        }
    }

    /// Allocates a program input.
    pub fn alloc_input(&mut self, data_type: &str, data: Element) -> (r: Result<usize>)
        ensures
            r is Ok <==> type_accepts(old(self).data_types@, data_type@, data@),
            r matches Err(e) ==> e == refusal(old(self).data_types@, data_type@),
            final(self).data_types@ == old(self).data_types@,
            final(self).functions@ == old(self).functions@,
            final(self).hints@ == old(self).hints@,
            final(self).output_indices@ == old(self).output_indices@,
            match r {
                Ok(idx) => idx == old(self).memory@.len() && final(self).mem() == old(self).mem().push(
                    (data_type@, data@),
                ) && final(self).input_indices@ == old(self).input_indices@.push(idx),
                Err(_) => final(self).memory@ == old(self).memory@ && final(self).input_indices@
                    == old(self).input_indices@,
            },
    {
        let e = self.typed_entry(data_type, data)?;
        let idx = self.memory.len();
        self.memory.push(e);
        self.input_indices.push(idx);
        assert(self.mem() =~= old(self).mem().push((data_type@, data@)));
        Ok(idx)
    }

    /// Allocates a constant of the program.
    pub fn alloc_constant(&mut self, data_type: &str, data: Element) -> (r: Result<usize>)
        ensures
            r is Ok <==> type_accepts(old(self).data_types@, data_type@, data@),
            r matches Err(e) ==> e == refusal(old(self).data_types@, data_type@),
            final(self).data_types@ == old(self).data_types@,
            final(self).functions@ == old(self).functions@,
            final(self).hints@ == old(self).hints@,
            final(self).input_indices@ == old(self).input_indices@,
            final(self).output_indices@ == old(self).output_indices@,
            match r {
                Ok(idx) => idx == old(self).memory@.len() && final(self).mem() == old(self).mem().push(
                    (data_type@, data@),
                ),
                Err(_) => final(self).memory@ == old(self).memory@,
            },
    {
        let e = self.typed_entry(data_type, data)?;
        let idx = self.memory.len();
        self.memory.push(e);
        assert(self.mem() =~= old(self).mem().push((data_type@, data@)));
        Ok(idx)
    }

    /// Allocates a value that the script receives as a hint.
    pub fn alloc_hint(&mut self, data_type: &str, data: Element) -> (r: Result<usize>)
        ensures
            r is Ok <==> type_accepts(old(self).data_types@, data_type@, data@),
            r matches Err(e) ==> e == refusal(old(self).data_types@, data_type@),
            final(self).data_types@ == old(self).data_types@,
            final(self).functions@ == old(self).functions@,
            final(self).input_indices@ == old(self).input_indices@,
            final(self).output_indices@ == old(self).output_indices@,
            match r {
                Ok(idx) => idx == old(self).memory@.len() && final(self).mem() == old(self).mem().push(
                    (data_type@, data@),
                ) && final(self).hint_v() == old(self).hint_v().push((data_type@, data@)),
                Err(_) => final(self).memory@ == old(self).memory@ && final(self).hints@ == old(self).hints@,
            },
    {
        let e = self.typed_entry(data_type, data)?;
        let idx = self.memory.len();
        let h = e.clone();
        self.memory.push(e);
        self.hints.push(h);
        assert(self.mem() =~= old(self).mem().push((data_type@, data@)));
        assert(self.hint_v() =~= old(self).hint_v().push((data_type@, data@)));
        Ok(idx)
    }

    /// The number at index `idx`.
    pub fn get_num(&self, idx: usize) -> (r: Result<i32>)
        ensures
            r == num_at(self.mem(), idx as int),
    {
        if idx >= self.memory.len() {
            return Err(DslError::IndexOutOfRange);
        }
        match &self.memory[idx].data {
            Element::Num(v) => Ok(*v),
            _ => Err(DslError::WrongElement),
        }
    }

    /// The numbers at index `idx`.
    pub fn get_many_num(&self, idx: usize) -> (r: Result<&[i32]>)
        ensures
            match r {
                Ok(v) => many_at(self.mem(), idx as int) == Ok::<Seq<i32>, DslError>(v@),
                Err(e) => many_at(self.mem(), idx as int) == Err::<Seq<i32>, DslError>(e),
            },
    {
        if idx >= self.memory.len() {
            return Err(DslError::IndexOutOfRange);
        }
        match &self.memory[idx].data {
            Element::ManyNum(v) => Ok(v.as_slice()),
            _ => Err(DslError::WrongElement),
        }
    }

    /// The bytes at index `idx`.
    pub fn get_str(&self, idx: usize) -> (r: Result<&[u8]>)
        ensures
            match r {
                Ok(v) => str_at(self.mem(), idx as int) == Ok::<Seq<u8>, DslError>(v@),
                Err(e) => str_at(self.mem(), idx as int) == Err::<Seq<u8>, DslError>(e),
            },
    {
        if idx >= self.memory.len() {
            return Err(DslError::IndexOutOfRange);
        }
        match &self.memory[idx].data {
            Element::Str(v) => Ok(v.as_slice()),
            _ => Err(DslError::WrongElement),
        }
    }

    /// Marks the element at `idx`, of data type `data_type`, as an output of
    /// the program.
    pub fn set_program_output(&mut self, data_type: &str, idx: usize) -> (r: Result<()>)
        ensures
            final(self).data_types@ == old(self).data_types@,
            final(self).functions@ == old(self).functions@,
            final(self).memory@ == old(self).memory@,
            final(self).hints@ == old(self).hints@,
            final(self).input_indices@ == old(self).input_indices@,
            idx >= old(self).memory@.len() ==> r == Err::<(), DslError>(DslError::IndexOutOfRange),
            idx < old(self).memory@.len() && old(self).memory@[idx as int].data_type@ != data_type@
                ==> r == Err::<(), DslError>(DslError::TypeMismatch),
            r is Ok <==> idx < old(self).memory@.len() && old(self).memory@[idx as int].data_type@
                == data_type@,
            r is Ok ==> final(self).output_indices@ == old(self).output_indices@.push(idx),
            r is Err ==> final(self).output_indices@ == old(self).output_indices@,
    {
        if idx >= self.memory.len() {
            return Err(DslError::IndexOutOfRange);
        }
        let key = data_type.to_owned();
        if self.memory[idx].data_type == key {
            self.output_indices.push(idx);
            Ok(())
        } else {
            Err(DslError::TypeMismatch)
        }
    }
}

/// An element stored at the end of the memory reads back unchanged at its
/// index: what `alloc_input`, `alloc_constant` and `alloc_hint` store,
/// `get_num`, `get_many_num` and `get_str` give back.
pub proof fn lemma_read_back(mem: Seq<EntryV>, t: Seq<char>, e: ElementV)
    ensures
        e matches ElementV::Num(v) ==> num_at(mem.push((t, e)), mem.len() as int) == Ok::<
            i32,
            DslError,
        >(v),
        e matches ElementV::ManyNum(v) ==> many_at(mem.push((t, e)), mem.len() as int) == Ok::<
            Seq<i32>,
            DslError,
        >(v),
        e matches ElementV::Str(v) ==> str_at(mem.push((t, e)), mem.len() as int) == Ok::<
            Seq<u8>,
            DslError,
        >(v),
{
}

/// A program that only grew reads at its earlier indices what it read
/// before: no call overwrites an element.
pub proof fn lemma_extends_keeps_reads(new: &DSL, old: &DSL, i: int)
    requires
        new.extends(old),
        0 <= i < old.mem().len(),
    ensures
        num_at(new.mem(), i) == num_at(old.mem(), i),
        many_at(new.mem(), i) == many_at(old.mem(), i),
        str_at(new.mem(), i) == str_at(old.mem(), i),
{
    assert(new.mem()[i] == old.mem()[i]);
}

/// Growth is transitive: a program grown from one grown from `a` is grown
/// from `a`.
pub proof fn lemma_extends_trans(c: &DSL, b: &DSL, a: &DSL)
    requires
        c.extends(b),
        b.extends(a),
    ensures
        c.extends(a),
{
    assert forall|i: int| 0 <= i < a.mem().len() implies #[trigger] c.mem()[i] == a.mem()[i] by {
        assert(c.mem()[i] == b.mem()[i]);
    }
    assert forall|i: int| 0 <= i < a.hint_v().len() implies #[trigger] c.hint_v()[i] == a.hint_v()[i] by {
        assert(c.hint_v()[i] == b.hint_v()[i]);
    }
}

} // verus!
