use smallvec::SmallVec;
use std::num::TryFromIntError;
use uuid::Uuid;
use vstd::arithmetic::power::pow;
use vstd::prelude::*;

verus! {

// ---------------------------------------------------------------------------
// Outside collection: smallvec::SmallVec
// ---------------------------------------------------------------------------

/// Per-scope record of how often each caller location has been seen, held in
/// a `smallvec::SmallVec<[(SourceLocation, u32); 4]>`.
#[verifier::external_body]
pub struct LocalOccurrences {
    inner: SmallVec<[(SourceLocation, u32); 4]>,
}

/// The stack of per-scope occurrence tables, held in a
/// `smallvec::SmallVec<[LocalOccurrences; 32]>`.
#[verifier::external_body]
pub struct ScopeTables {
    inner: SmallVec<[LocalOccurrences; 32]>,
}

/// The element path, held in a `smallvec::SmallVec<[ElementId; 32]>`.
#[verifier::external_body]
pub struct PathSegments {
    inner: SmallVec<[ElementId; 32]>,
}

/// What a scope's occurrence table holds, in order.
pub uninterp spec fn scope_entries(v: LocalOccurrences) -> Seq<(SourceLocation, u32)>;

/// What the stack of occurrence tables holds, in order (innermost last).
pub uninterp spec fn scope_tables(v: ScopeTables) -> Seq<LocalOccurrences>;

/// What the element path holds, in order.
pub uninterp spec fn path_segments(v: PathSegments) -> Seq<ElementId>;

/// `SmallVec::new`: an empty occurrence table.
#[verifier::external_body]
fn table_new() -> (r: LocalOccurrences)
    ensures
        scope_entries(r) == Seq::<(SourceLocation, u32)>::empty(),
{
    LocalOccurrences { inner: SmallVec::new() }
}

/// `SmallVec::push` on an occurrence table; panics only when the length would overflow.
#[verifier::external_body]
fn table_push(v: &mut LocalOccurrences, x: (SourceLocation, u32))
    requires
        scope_entries(*old(v)).len() < usize::MAX,
    ensures
        scope_entries(*final(v)) == scope_entries(*old(v)).push(x),
{
    v.inner.push(x)
}

/// `SmallVec::as_mut_slice` on an occurrence table: the slice is the contents.
#[verifier::external_body]
fn table_as_mut_slice(v: &mut LocalOccurrences) -> (r: &mut [(SourceLocation, u32)])
    ensures
        r@ == scope_entries(*old(v)),
        scope_entries(*final(v)) == final(r)@,
{
    v.inner.as_mut_slice()
}

/// `SmallVec::new` for the stack of tables.
#[verifier::external_body]
fn tables_new() -> (r: ScopeTables)
    ensures
        scope_tables(r) == Seq::<LocalOccurrences>::empty(),
{
    ScopeTables { inner: SmallVec::new() }
}

/// `SmallVec::push` on the stack of tables.
#[verifier::external_body]
fn tables_push(v: &mut ScopeTables, x: LocalOccurrences)
    requires
        scope_tables(*old(v)).len() < usize::MAX,
    ensures
        scope_tables(*final(v)) == scope_tables(*old(v)).push(x),
{
    v.inner.push(x)
}

/// `SmallVec::pop` on the stack of tables.
#[verifier::external_body]
fn tables_pop(v: &mut ScopeTables) -> (r: Option<LocalOccurrences>)
    ensures
        scope_tables(*old(v)).len() == 0 ==> r is None && scope_tables(*final(v)) == scope_tables(*old(v)),
        scope_tables(*old(v)).len() > 0 ==> r == Some(scope_tables(*old(v)).last())
            && scope_tables(*final(v)) == scope_tables(*old(v)).drop_last(),
{
    v.inner.pop()
}

/// `SmallVec::clear` on the stack of tables.
#[verifier::external_body]
fn tables_clear(v: &mut ScopeTables)
    ensures
        scope_tables(*final(v)) == Seq::<LocalOccurrences>::empty(),
{
    v.inner.clear()
}

/// `SmallVec::resize_with` on the stack of tables, filling with empty tables.
#[verifier::external_body]
fn tables_resize_with_empty(v: &mut ScopeTables, new_len: usize)
    ensures
        scope_tables(*final(v)).len() == new_len,
        forall|i: int| 0 <= i < new_len && i < scope_tables(*old(v)).len()
            ==> scope_tables(*final(v))[i] == scope_tables(*old(v))[i],
        forall|i: int| scope_tables(*old(v)).len() <= i < new_len
            ==> scope_entries(#[trigger] scope_tables(*final(v))[i]) == Seq::<(SourceLocation, u32)>::empty(),
{
    v.inner.resize_with(new_len, empty_table)
}

/// `SmallVec::as_mut_slice` on the stack of tables.
#[verifier::external_body]
fn tables_as_mut_slice(v: &mut ScopeTables) -> (r: &mut [LocalOccurrences])
    ensures
        r@ == scope_tables(*old(v)),
        scope_tables(*final(v)) == final(r)@,
{
    v.inner.as_mut_slice()
}

/// `SmallVec::as_slice` on the stack of tables.
#[verifier::external_body]
fn tables_as_slice(v: &ScopeTables) -> (r: &[LocalOccurrences])
    ensures
        r@ == scope_tables(*v),
{
    v.inner.as_slice()
}

/// `SmallVec::len` on an occurrence table.
#[verifier::external_body]
fn table_len(v: &LocalOccurrences) -> (r: usize)
    ensures
        r == scope_entries(*v).len(),
{
    v.inner.len()
}

/// `SmallVec::new` for the element path.
#[verifier::external_body]
fn path_new() -> (r: PathSegments)
    ensures
        path_segments(r) == Seq::<ElementId>::empty(),
{
    PathSegments { inner: SmallVec::new() }
}

/// `SmallVec::push` on the element path.
#[verifier::external_body]
fn path_push(v: &mut PathSegments, x: ElementId)
    requires
        path_segments(*old(v)).len() < usize::MAX,
    ensures
        path_segments(*final(v)) == path_segments(*old(v)).push(x),
{
    v.inner.push(x)
}

/// `SmallVec::pop` on the element path.
#[verifier::external_body]
fn path_pop(v: &mut PathSegments) -> (r: Option<ElementId>)
    ensures
        path_segments(*old(v)).len() == 0 ==> r is None && path_segments(*final(v)) == path_segments(*old(v)),
        path_segments(*old(v)).len() > 0 ==> r == Some(path_segments(*old(v)).last())
            && path_segments(*final(v)) == path_segments(*old(v)).drop_last(),
{
    v.inner.pop()
}

/// `SmallVec::clear` on the element path.
#[verifier::external_body]
fn path_clear(v: &mut PathSegments)
    ensures
        path_segments(*final(v)) == Seq::<ElementId>::empty(),
{
    v.inner.clear()
}

/// `SmallVec::len` on the element path.
#[verifier::external_body]
fn path_len(v: &PathSegments) -> (r: usize)
    ensures
        r == path_segments(*v).len(),
{
    v.inner.len()
}

/// `SmallVec::as_slice` on the element path.
#[verifier::external_body]
fn path_as_slice(v: &PathSegments) -> (r: &[ElementId])
    ensures
        r@ == path_segments(*v),
{
    v.inner.as_slice()
}

// ---------------------------------------------------------------------------
// Identity values
// ---------------------------------------------------------------------------

/// A caller source location: file, line and column.
#[derive(Clone, Debug)]
pub struct SourceLocation {
    file: String,
    line: u32,
    column: u32,
}

impl View for SourceLocation {
    type V = (Seq<char>, u32, u32);

    closed spec fn view(&self) -> (Seq<char>, u32, u32) {
        (self.file@, self.line, self.column)
    }
}

impl SourceLocation {
    /// A location from its file, line and column.
    pub fn new(file: String, line: u32, column: u32) -> (r: Self)
        ensures
            r@ == (file@, line, column),
    {
        SourceLocation { file, line, column }
    }

    /// The file of the location.
    pub fn file(&self) -> (r: &str)
        ensures
            r@ == self@.0,
    {
        self.file.as_str()
    }

    /// The line of the location.
    pub fn line(&self) -> (r: u32)
        ensures
            r == self@.1,
    {
        self.line
    }

    /// The column of the location.
    pub fn column(&self) -> (r: u32)
        ensures
            r == self@.2,
    {
        self.column
    }

    /// A copy of the location.
    pub fn duplicate(&self) -> (r: Self)
        ensures
            r@ == self@,
    {
        SourceLocation { file: self.file.clone(), line: self.line, column: self.column }
    }

    /// Whether two locations name the same place.
    pub fn same(&self, other: &SourceLocation) -> (r: bool)
        ensures
            r == (self@ == other@),
    {
        self.line == other.line && self.column == other.column && self.file == other.file
    }
}

/// A caller source location plus sibling occurrence in the parent namespace.
#[derive(Clone, Debug)]
pub struct LocalElementId {
    source_location: SourceLocation,
    occurrence: u32,
}

impl LocalElementId {
    fn new(source_location: SourceLocation, occurrence: u32) -> (r: Self)
        ensures
            r.location_view() == source_location@,
            r.occurrence_view() == occurrence,
    {
        LocalElementId { source_location, occurrence }
    }

    /// The callsite that produced this local identity.
    pub fn source_location(&self) -> (r: SourceLocation)
        ensures
            r@ == self.location_view(),
    {
        self.source_location.duplicate()
    }

    /// The occurrence of this callsite within the current parent namespace.
    pub fn occurrence(&self) -> (r: u32)
        ensures
            r == self.occurrence_view(),
    {
        self.occurrence
    }

    /// The location this identity was made from, as a value.
    pub closed spec fn location_view(&self) -> (Seq<char>, u32, u32) {
        self.source_location@
    }

    /// The occurrence, as a value.
    pub closed spec fn occurrence_view(&self) -> u32 {
        self.occurrence
    }
}

/// A globally-scoped key value.
#[derive(Clone, Debug, Hash)]
pub struct GlobalKey(String);

impl PartialEq for GlobalKey {
    fn eq(&self, other: &GlobalKey) -> (r: bool) {
        self.0 == other.0
    }
}

impl vstd::std_specs::cmp::PartialEqSpecImpl for GlobalKey {
    open spec fn obeys_eq_spec() -> bool {
        true
    }

    open spec fn eq_spec(&self, other: &GlobalKey) -> bool {
        self.text() == other.text()
    }
}

impl Eq for GlobalKey {
}

impl GlobalKey {
    /// Creates a global key from a stable string value.
    pub fn new(value: String) -> (r: Self)
        ensures
            r.text() == value@,
    {
        GlobalKey(value)
    }

    /// Returns the underlying key text.
    pub fn as_str(&self) -> (r: &str)
        ensures
            r@ == self.text(),
    {
        self.0.as_str()
    }

    /// The key text, as a value.
    pub closed spec fn text(&self) -> Seq<char> {
        self.0@
    }

    /// The global key of a UUID given by its 128 bits (most significant
    /// first): its hyphenated lowercase text.
    pub fn from_uuid(bits: u128) -> (r: Self)
        ensures
            r.text() == uuid_text(bits),
    {
        GlobalKey(uuid_hyphenated(bits))
    }
}

/// The lowercase hex digit of a nibble.
pub open spec fn hex_digit(n: int) -> char {
    if n < 10 {
        ('0' as int + n) as char
    } else {
        ('a' as int + n - 10) as char
    }
}

/// The `k`-th hex digit (0 is the most significant) of a 128-bit value.
pub open spec fn nibble(bits: u128, k: int) -> int {
    (bits as int / pow(16, (31 - k) as nat)) % 16
}

/// The hex digit shown at position `i` of the hyphenated form.
pub open spec fn digit_at(i: int) -> int {
    if i < 8 { i } else if i < 13 { i - 1 } else if i < 18 { i - 2 } else if i < 23 { i - 3 } else { i - 4 }
}

/// The hyphenated lowercase text of a UUID: its 32 hex digits, most
/// significant first, grouped 8-4-4-4-12 by hyphens.
pub open spec fn uuid_text(bits: u128) -> Seq<char> {
    Seq::new(36, |i: int| if i == 8 || i == 13 || i == 18 || i == 23 { '-' } else { hex_digit(nibble(bits, digit_at(i))) })
}

/// `uuid::Uuid::from_u128` then `to_string`: the UUID whose big-endian
/// bytes are `bits`, displayed in its hyphenated lowercase form.
#[verifier::external_body]
fn uuid_hyphenated(bits: u128) -> (r: String)
    ensures
        r@ == uuid_text(bits),
{
    Uuid::from_u128(bits).to_string()
}

/// An identifier for an element: a normalized engine path segment.
#[derive(Debug)]
pub enum ElementId {
    /// The ID of a View element (its entity id).
    View(u64),
    /// An integer ID.
    Integer(u64),
    /// A string based ID.
    Name(String),
    /// A UUID, by its 128 bits.
    Uuid(u128),
    /// An ID that's equated with a focus handle (its focus id).
    FocusHandle(u64),
    /// A combination of a name and an integer.
    NamedInteger(String, u64),
    /// A path.
    Path(String),
    /// A caller source location before stack normalization.
    CodeLocation(SourceLocation),
    /// A caller source location plus sibling occurrence in the parent namespace.
    Local(LocalElementId),
    /// A globally-scoped key.
    GlobalKey(GlobalKey),
    /// A labeled child of an element.
    NamedChild(Box<ElementId>, String),
}

/// An element id as a mathematical value: strings by their characters.
pub enum IdValue {
    View(u64),
    Integer(u64),
    Name(Seq<char>),
    Uuid(u128),
    FocusHandle(u64),
    NamedInteger(Seq<char>, u64),
    Path(Seq<char>),
    CodeLocation((Seq<char>, u32, u32)),
    Local((Seq<char>, u32, u32), u32),
    GlobalKey(Seq<char>),
    NamedChild(Box<IdValue>, Seq<char>),
}

/// The value of an element id.
pub open spec fn id_value(id: ElementId) -> IdValue
    decreases id,
{
    match id {
        ElementId::View(e) => IdValue::View(e),
        ElementId::Integer(i) => IdValue::Integer(i),
        ElementId::Name(s) => IdValue::Name(s@),
        ElementId::Uuid(u) => IdValue::Uuid(u),
        ElementId::FocusHandle(f) => IdValue::FocusHandle(f),
        ElementId::NamedInteger(s, i) => IdValue::NamedInteger(s@, i),
        ElementId::Path(p) => IdValue::Path(p@),
        ElementId::CodeLocation(l) => IdValue::CodeLocation(l@),
        ElementId::Local(l) => IdValue::Local(l.location_view(), l.occurrence_view()),
        ElementId::GlobalKey(k) => IdValue::GlobalKey(k.text()),
        ElementId::NamedChild(base, name) => IdValue::NamedChild(Box::new(id_value(*base)), name@),
    }
}

impl View for ElementId {
    type V = IdValue;

    open spec fn view(&self) -> IdValue {
        id_value(*self)
    }
}


impl LocalElementId {
    /// A copy of the local identity.
    pub fn duplicate(&self) -> (r: Self)
        ensures
            r.location_view() == self.location_view(),
            r.occurrence_view() == self.occurrence_view(),
    {
        LocalElementId { source_location: self.source_location.duplicate(), occurrence: self.occurrence }
    }
}

impl GlobalKey {
    /// A copy of the key.
    pub fn duplicate(&self) -> (r: Self)
        ensures
            r.text() == self.text(),
    {
        GlobalKey(self.0.clone())
    }
}

impl ElementId {
    /// A copy of the id with the same value.
    pub fn duplicate(&self) -> (r: Self)
        ensures
            r@ == self@,
        decreases self,
    {
        match self {
            ElementId::View(e) => ElementId::View(*e),
            ElementId::Integer(i) => ElementId::Integer(*i),
            ElementId::Name(s) => ElementId::Name(s.clone()),
            ElementId::Uuid(u) => ElementId::Uuid(*u),
            ElementId::FocusHandle(f) => ElementId::FocusHandle(*f),
            ElementId::NamedInteger(s, i) => ElementId::NamedInteger(s.clone(), *i),
            ElementId::Path(p) => ElementId::Path(p.clone()),
            ElementId::CodeLocation(l) => ElementId::CodeLocation(l.duplicate()),
            ElementId::Local(l) => ElementId::Local(l.duplicate()),
            ElementId::GlobalKey(k) => ElementId::GlobalKey(k.duplicate()),
            ElementId::NamedChild(base, name) => {
                let b = (**base).duplicate();
                ElementId::NamedChild(Box::new(b), name.clone())
            },
        }
    }

    /// Whether two ids are equal: same variant and equal contents.
    pub fn same(&self, other: &ElementId) -> (r: bool)
        ensures
            r == (self@ == other@),
        decreases self,
    {
        match (self, other) {
            (ElementId::View(a), ElementId::View(b)) => *a == *b,
            (ElementId::Integer(a), ElementId::Integer(b)) => *a == *b,
            (ElementId::Name(a), ElementId::Name(b)) => *a == *b,
            (ElementId::Uuid(a), ElementId::Uuid(b)) => *a == *b,
            (ElementId::FocusHandle(a), ElementId::FocusHandle(b)) => *a == *b,
            (ElementId::NamedInteger(a, i), ElementId::NamedInteger(b, j)) => *i == *j && *a == *b,
            (ElementId::Path(a), ElementId::Path(b)) => *a == *b,
            (ElementId::CodeLocation(a), ElementId::CodeLocation(b)) => a.same(b),
            (ElementId::Local(a), ElementId::Local(b)) => a.occurrence == b.occurrence && a.source_location.same(&b.source_location),
            (ElementId::GlobalKey(a), ElementId::GlobalKey(b)) => a.0 == b.0,
            (ElementId::NamedChild(a, n), ElementId::NamedChild(b, m)) => {
                if *n == *m {
                    let inner = (**a).same(&**b);
                    proof {
                        if inner {
                            assert(id_value(**a) == id_value(**b));
                        }
                    }
                    inner
                } else {
                    false
                }
            },
            _ => false,
        }
    }

    /// An integer id from a signed integer; negative values are refused.
    pub fn try_from_i32(id: i32) -> (r: Result<ElementId, TryFromIntError>)
        ensures
            id >= 0 <==> r is Ok,
            r matches Ok(e) ==> e@ == IdValue::Integer(id as u64),
    {
        let v = u64::try_from(id)?;
        Ok(ElementId::Integer(v))
    }

    /// An integer id.
    pub fn from_usize(id: usize) -> (r: ElementId)
        ensures
            r@ == IdValue::Integer(id as u64),
    {
        ElementId::Integer(id as u64)
    }

    /// A name id.
    pub fn from_name(name: String) -> (r: ElementId)
        ensures
            r@ == IdValue::Name(name@),
    {
        ElementId::Name(name)
    }

    /// A labeled child of `base`.
    pub fn child(base: ElementId, name: String) -> (r: ElementId)
        ensures
            r@ == IdValue::NamedChild(Box::new(base@), name@),
    {
        ElementId::NamedChild(Box::new(base), name)
    }

    /// The name of a `Name` id; any other id is refused.
    pub fn try_into_name(self) -> (r: Result<String, NotAName>)
        ensures
            self@ is Name <==> r is Ok,
            r matches Ok(name) ==> self@ == IdValue::Name(name@),
    {
        match self {
            ElementId::Name(name) => Ok(name),
            _ => Err(NotAName),
        }
    }

    /// Constructs a `NamedInteger` id from a name and a `usize`.
    pub fn named_usize(name: String, integer: usize) -> (r: ElementId)
        ensures
            r@ == IdValue::NamedInteger(name@, integer as u64),
    {
        ElementId::NamedInteger(name, integer as u64)
    }
}

/// Error of [`ElementId::try_into_name`]: the id is not a string.
#[derive(Clone, Copy, Debug, PartialEq, Eq, Structural)]
pub struct NotAName;

impl NotAName {
    /// The error's message.
    pub fn to_string(&self) -> (r: String)
        ensures
            r@ == "element id is not string"@,
    {
        "element id is not string".to_owned()
    }
}

// ---------------------------------------------------------------------------
// Display text
// ---------------------------------------------------------------------------

/// `String::push`: appends `c` to the end of `text`.
#[verifier::external_body]
fn push_char(text: &mut String, c: char)
    ensures
        final(text)@ == old(text)@.push(c),
{
    text.push(c)
}

/// `String::push_str`: appends `s` to the end of `text`.
#[verifier::external_body]
fn push_str(text: &mut String, s: &str)
    ensures
        final(text)@ == old(text)@ + s@,
{
    text.push_str(s)
}

/// The character of a decimal digit.
pub open spec fn digit_char(d: int) -> char {
    ('0' as int + d) as char
}

/// The decimal text of a number, most significant digit first.
pub open spec fn decimal(n: nat) -> Seq<char>
    decreases n,
{
    if n < 10 {
        seq![digit_char(n as int)]
    } else {
        decimal(n / 10) + seq![digit_char((n % 10) as int)]
    }
}

/// The text of a caller location: `file:line:column`.
pub open spec fn location_text(l: (Seq<char>, u32, u32)) -> Seq<char> {
    l.0 + seq![':'] + decimal(l.1 as nat) + seq![':'] + decimal(l.2 as nat)
}

/// The display text of an element id.
pub open spec fn id_text(v: IdValue) -> Seq<char>
    decreases v,
{
    match v {
        IdValue::View(e) => seq!['v', 'i', 'e', 'w', '-'] + decimal(e as nat),
        IdValue::Integer(i) => decimal(i as nat),
        IdValue::Name(name) => name,
        IdValue::Uuid(bits) => uuid_text(bits),
        IdValue::FocusHandle(_) => seq!['F', 'o', 'c', 'u', 's', 'H', 'a', 'n', 'd', 'l', 'e'],
        IdValue::NamedInteger(name, i) => name + seq!['-'] + decimal(i as nat),
        IdValue::Path(path) => path,
        IdValue::CodeLocation(l) => location_text(l),
        IdValue::Local(l, occurrence) => location_text(l) + seq!['#'] + decimal(occurrence as nat),
        IdValue::GlobalKey(key) => seq!['g', 'l', 'o', 'b', 'a', 'l', ':'] + key,
        IdValue::NamedChild(base, name) => id_text(*base) + seq!['-'] + name,
    }
}

/// The character of the decimal digit `d`.
fn digit(d: u64) -> (r: char)
    requires
        d < 10,
    ensures
        r == digit_char(d as int),
{
    let code: u8 = 48u8 + d as u8;
    code as char
}

/// Appends the decimal text of `n` to `text`.
fn write_decimal(text: &mut String, n: u64)
    ensures
        final(text)@ == old(text)@ + decimal(n as nat),
    decreases n,
{
    if n >= 10 {
        write_decimal(text, n / 10);
    }
    push_char(text, digit(n % 10));
    proof {
        if n >= 10 {
            assert(decimal(n as nat) == decimal((n / 10) as nat) + seq![digit_char((n % 10) as int)]);
        }
    }
    assert(final(text)@ =~= old(text)@ + decimal(n as nat));
}

/// Appends the text of a caller location to `text`.
fn write_location(text: &mut String, l: &SourceLocation)
    ensures
        final(text)@ == old(text)@ + location_text(l@),
{
    push_str(text, l.file());
    push_char(text, ':');
    write_decimal(text, l.line() as u64);
    push_char(text, ':');
    write_decimal(text, l.column() as u64);
    assert(final(text)@ =~= old(text)@ + location_text(l@));
}

impl GlobalKey {
    /// The key's display text: the key text itself.
    pub fn to_string(&self) -> (r: String)
        ensures
            r@ == self.text(),
    {
        self.0.clone()
    }
}

impl ElementId {
    /// Appends the display text of the id to `text`.
    fn write_text(&self, text: &mut String)
        ensures
            final(text)@ == old(text)@ + id_text(self@),
        decreases self,
    {
        let ghost start = old(text)@;
        match self {
            ElementId::View(e) => {
                push_str(text, "view-");
                proof {
                    reveal_strlit("view-");
                }
                write_decimal(text, *e);
                assert(final(text)@ =~= start + id_text(self@));
            },
            ElementId::Integer(i) => {
                write_decimal(text, *i);
            },
            ElementId::Name(name) => {
                push_str(text, name.as_str());
            },
            ElementId::Uuid(bits) => {
                let s = uuid_hyphenated(*bits);
                push_str(text, s.as_str());
            },
            ElementId::FocusHandle(_) => {
                push_str(text, "FocusHandle");
                proof {
                    reveal_strlit("FocusHandle");
                }
                assert(final(text)@ =~= start + id_text(self@));
            },
            ElementId::NamedInteger(name, i) => {
                push_str(text, name.as_str());
                push_char(text, '-');
                write_decimal(text, *i);
                assert(final(text)@ =~= start + id_text(self@));
            },
            ElementId::Path(path) => {
                push_str(text, path.as_str());
            },
            ElementId::CodeLocation(l) => {
                write_location(text, l);
            },
            ElementId::Local(local) => {
                write_location(text, &local.source_location);
                push_char(text, '#');
                write_decimal(text, local.occurrence as u64);
                assert(final(text)@ =~= start + id_text(self@));
            },
            ElementId::GlobalKey(key) => {
                push_str(text, "global:");
                proof {
                    reveal_strlit("global:");
                }
                push_str(text, key.as_str());
                assert(final(text)@ =~= start + id_text(self@));
            },
            ElementId::NamedChild(base, name) => {
                (**base).write_text(text);
                push_char(text, '-');
                push_str(text, name.as_str());
                assert(final(text)@ =~= start + id_text(self@));
            },
        }
    }

    /// The id's display text: `view-` and the entity number for a view;
    /// the number, name, path or hyphenated UUID itself; `FocusHandle`;
    /// `name-number`; `file:line:column` for a caller location, followed by
    /// `#` and the occurrence for a local id; `global:` and the key; the
    /// parent's text, `-` and the label for a child.
    pub fn to_string(&self) -> (r: String)
        ensures
            r@ == id_text(self@),
    {
        let mut text = String::new();
        self.write_text(&mut text);
        assert(text@ =~= id_text(self@));
        text
    }
}

impl PartialEq for ElementId {
    fn eq(&self, other: &ElementId) -> (r: bool) {
        self.same(other)
    }
}

impl vstd::std_specs::cmp::PartialEqSpecImpl for ElementId {
    open spec fn obeys_eq_spec() -> bool {
        true
    }

    open spec fn eq_spec(&self, other: &ElementId) -> bool {
        self@ == other@
    }
}

/// How a key asks for identity: by caller location, by value, or globally.
#[derive(Debug)]
enum KeyKind {
    Local(SourceLocation),
    Value(ElementId),
    Global(GlobalKey),
}

/// User-facing identity intent for an element.
#[derive(Debug)]
pub struct Key(KeyKind);

/// Whether an id is value-like: an integer, name, path, focus handle,
/// named integer or UUID, or a labeled child of a value-like id. Caller
/// locations, local ids, global keys and view ids are not.
pub open spec fn value_like(id: IdValue) -> bool
    decreases id,
{
    match id {
        IdValue::Integer(_) | IdValue::Name(_) | IdValue::Path(_) | IdValue::FocusHandle(_)
        | IdValue::NamedInteger(_, _) | IdValue::Uuid(_) => true,
        IdValue::NamedChild(base, _) => value_like(*base),
        _ => false,
    }
}

/// Reorder-stable value identity accepted by [`Key::value`]: always backed
/// by a value-like id.
#[derive(Debug)]
pub struct ValueKey(ElementId);

impl ValueKey {
    /// A value key is backed by a value-like id.
    #[verifier::type_invariant]
    spec fn holds_value(self) -> bool {
        value_like(self.0@)
    }

    /// The id backing this key, as a value.
    pub closed spec fn id_view(&self) -> IdValue {
        self.0@
    }

    /// Returns the engine path segment backing this value key; it is always
    /// value-like.
    pub fn into_element_id(self) -> (r: ElementId)
        ensures
            r@ == self.id_view(),
            value_like(r@),
    {
        proof {
            use_type_invariant(&self);
        }
        self.0
    }

    /// An integer value key.
    pub fn from_usize(id: usize) -> (r: Self)
        ensures
            r.id_view() == IdValue::Integer(id as u64),
    {
        ValueKey(ElementId::from_usize(id))
    }

    /// A value key from a signed integer; negative values are refused.
    pub fn try_from_i32(id: i32) -> (r: Result<ValueKey, TryFromIntError>)
        ensures
            id >= 0 <==> r is Ok,
            r matches Ok(k) ==> k.id_view() == IdValue::Integer(id as u64),
    {
        let e = ElementId::try_from_i32(id)?;
        Ok(ValueKey(e))
    }

    /// A name value key.
    pub fn from_name(name: String) -> (r: Self)
        ensures
            r.id_view() == IdValue::Name(name@),
    {
        ValueKey(ElementId::Name(name))
    }

    /// A path value key.
    pub fn from_path(path: String) -> (r: Self)
        ensures
            r.id_view() == IdValue::Path(path@),
    {
        ValueKey(ElementId::Path(path))
    }

    /// The value key of a focus handle, by its id.
    pub fn from_focus_handle(id: u64) -> (r: Self)
        ensures
            r.id_view() == IdValue::FocusHandle(id),
    {
        ValueKey(ElementId::FocusHandle(id))
    }

    /// A name paired with an integer.
    pub fn named_integer(name: String, id: u64) -> (r: Self)
        ensures
            r.id_view() == IdValue::NamedInteger(name@, id),
    {
        ValueKey(ElementId::NamedInteger(name, id))
    }

    /// The value key of a UUID given by its 128 bits.
    pub fn from_uuid(bits: u128) -> (r: Self)
        ensures
            r.id_view() == IdValue::Uuid(bits),
    {
        ValueKey(ElementId::Uuid(bits))
    }

    /// A labeled child of a value key.
    pub fn child(base: ValueKey, name: String) -> (r: Self)
        ensures
            r.id_view() == IdValue::NamedChild(Box::new(base.id_view()), name@),
    {
        let b = base.into_element_id();
        ValueKey(ElementId::NamedChild(Box::new(b), name))
    }
}

impl Key {
    /// The element id this key stands for, as a value: a raw caller location
    /// for local keys, the value for value keys, the global key otherwise.
    pub closed spec fn id_view(&self) -> IdValue {
        match self.0 {
            KeyKind::Local(location) => IdValue::CodeLocation(location@),
            KeyKind::Value(value) => value@,
            KeyKind::Global(key) => IdValue::GlobalKey(key.text()),
        }
    }

    /// A local key for the caller location `location`.
    pub fn local(location: SourceLocation) -> (r: Self)
        ensures
            r.id_view() == IdValue::CodeLocation(location@),
    {
        Key(KeyKind::Local(location))
    }

    /// A value key.
    pub fn value(value: ValueKey) -> (r: Self)
        ensures
            r.id_view() == value.id_view(),
            value_like(r.id_view()),
    {
        Key(KeyKind::Value(value.into_element_id()))
    }

    /// A global key.
    pub fn global(value: GlobalKey) -> (r: Self)
        ensures
            r.id_view() == IdValue::GlobalKey(value.text()),
    {
        Key(KeyKind::Global(value))
    }

    /// The element id this key stands for.
    pub fn into_element_id(self) -> (r: ElementId)
        ensures
            r@ == self.id_view(),
    {
        match self.0 {
            KeyKind::Local(location) => ElementId::CodeLocation(location),
            KeyKind::Value(value) => value,
            KeyKind::Global(global_key) => ElementId::GlobalKey(global_key),
        }
    }
}

// ---------------------------------------------------------------------------
// Occurrence tables
// ---------------------------------------------------------------------------

/// The location value of a caller location.
pub type LocValue = (Seq<char>, u32, u32);

/// No location occurs twice in a table.
pub open spec fn unique_locations(entries: Seq<(SourceLocation, u32)>) -> bool {
    forall|i: int, j: int|
        0 <= i < entries.len() && 0 <= j < entries.len() && #[trigger] entries[i].0@ == #[trigger] entries[j].0@
            ==> i == j
}

/// Whether a location has an entry in a table.
pub open spec fn has_location(entries: Seq<(SourceLocation, u32)>, loc: LocValue) -> bool {
    exists|i: int| 0 <= i < entries.len() && #[trigger] entries[i].0@ == loc
}

/// A table as a map from location to how often it has been seen.
pub open spec fn table_map(entries: Seq<(SourceLocation, u32)>) -> Map<LocValue, u32> {
    Map::new(
        |loc: LocValue| has_location(entries, loc),
        |loc: LocValue| entries[choose|i: int| 0 <= i < entries.len() && #[trigger] entries[i].0@ == loc].1,
    )
}

/// How often a location has been seen according to a table map (zero when absent).
pub open spec fn seen(table: Map<LocValue, u32>, loc: LocValue) -> u32 {
    if table.contains_key(loc) { table[loc] } else { 0 }
}

/// Normalizing an id against the current scope's table: the normalized id
/// and the table afterwards. A raw code location becomes a local id whose
/// occurrence is how often that location was seen before in the scope;
/// a named child normalizes its base; everything else is kept.
pub open spec fn normalize_value(table: Map<LocValue, u32>, id: IdValue) -> (IdValue, Map<LocValue, u32>)
    decreases id,
{
    match id {
        IdValue::CodeLocation(loc) => (
            IdValue::Local(loc, seen(table, loc)),
            table.insert(loc, (seen(table, loc) + 1) as u32),
        ),
        IdValue::NamedChild(base, name) => {
            let inner = normalize_value(table, *base);
            (IdValue::NamedChild(Box::new(inner.0), name), inner.1)
        },
        other => (other, table),
    }
}

/// Normalizing `id` against `table` counts no location past `u32::MAX`.
pub open spec fn normalize_fits(table: Map<LocValue, u32>, id: IdValue) -> bool
    decreases id,
{
    match id {
        IdValue::CodeLocation(loc) => seen(table, loc) < u32::MAX,
        IdValue::NamedChild(base, name) => normalize_fits(table, *base),
        _ => true,
    }
}

proof fn lemma_table_map_found(entries: Seq<(SourceLocation, u32)>, i: int)
    requires
        unique_locations(entries),
        0 <= i < entries.len(),
    ensures
        table_map(entries).contains_key(entries[i].0@),
        table_map(entries)[entries[i].0@] == entries[i].1,
{
    let loc = entries[i].0@;
    assert(has_location(entries, loc));
    let j = choose|j: int| 0 <= j < entries.len() && #[trigger] entries[j].0@ == loc;
    assert(entries[j].0@ == entries[i].0@);
}

/// Looks `loc` up in an occurrence table, returns how often it was seen
/// and counts this sighting.
#[verifier::loop_isolation(false)]
fn bump_occurrence(occurrences: &mut LocalOccurrences, loc: &SourceLocation) -> (r: u32)
    requires
        unique_locations(scope_entries(*old(occurrences))),
        seen(table_map(scope_entries(*old(occurrences))), loc@) < u32::MAX,
        scope_entries(*old(occurrences)).len() < usize::MAX,
    ensures
        r == seen(table_map(scope_entries(*old(occurrences))), loc@),
        table_map(scope_entries(*final(occurrences))) == table_map(scope_entries(*old(occurrences))).insert(loc@, (r + 1) as u32),
        unique_locations(scope_entries(*final(occurrences))),
{
    let ghost before = scope_entries(*occurrences);
    let entries = table_as_mut_slice(occurrences);
    let n = entries.len();
    let mut i: usize = 0;
    while i < n
        invariant
            n == entries@.len(),
            entries@ == before,
            before == scope_entries(*old(occurrences)),
            seen(table_map(before), loc@) < u32::MAX,
            0 <= i <= n,
            unique_locations(before),
            forall|j: int| 0 <= j < i ==> before[j].0@ != loc@,
        decreases n - i,
    {
        if entries[i].0.same(loc) {
            let current = entries[i].1;
            proof {
                lemma_table_map_found(before, i as int);
                assert(before[i as int].0@ == loc@);
                assert(current == before[i as int].1);
                assert(seen(table_map(before), loc@) == current);
            }
            let found = entries[i].0.duplicate();
            entries[i] = (found, current + 1);
            proof {
                let after = entries@;
                assert(after == before.update(i as int, after[i as int]));
                assert forall|a: int, b: int|
                    0 <= a < after.len() && 0 <= b < after.len() && #[trigger] after[a].0@ == #[trigger] after[b].0@
                    implies a == b by {
                    assert(after[a].0@ == before[a].0@);
                    assert(after[b].0@ == before[b].0@);
                }
                let m0 = table_map(before);
                let m1 = table_map(after);
                assert forall|l: LocValue| #[trigger] m1.contains_key(l) <==> m0.insert(loc@, (current + 1) as u32).contains_key(l) by {
                    if has_location(after, l) {
                        let k = choose|k: int| 0 <= k < after.len() && #[trigger] after[k].0@ == l;
                        assert(before[k].0@ == l);
                    }
                    if has_location(before, l) {
                        let k = choose|k: int| 0 <= k < before.len() && #[trigger] before[k].0@ == l;
                        assert(after[k].0@ == l);
                    }
                }
                assert forall|l: LocValue| #[trigger] m1.contains_key(l) implies m1[l] == m0.insert(loc@, (current + 1) as u32)[l] by {
                    let k = choose|k: int| 0 <= k < after.len() && #[trigger] after[k].0@ == l;
                    lemma_table_map_found(after, k);
                    if k != i {
                        lemma_table_map_found(before, k);
                    }
                }
                assert(m1 =~= m0.insert(loc@, (current + 1) as u32));
            }
            return current;
        }
        i += 1;
    }
    proof {
        assert(!has_location(before, loc@));
    }
    table_push(occurrences, (loc.duplicate(), 1));
    proof {
        let after = scope_entries(*occurrences);
        assert(after == before.push(after[before.len() as int]));
        assert forall|a: int, b: int|
            0 <= a < after.len() && 0 <= b < after.len() && #[trigger] after[a].0@ == #[trigger] after[b].0@
            implies a == b by {
            if a < before.len() && b == before.len() {
                assert(before[a].0@ == loc@);
            }
            if b < before.len() && a == before.len() {
                assert(before[b].0@ == loc@);
            }
        }
        let m0 = table_map(before);
        let m1 = table_map(after);
        assert forall|l: LocValue| #[trigger] m1.contains_key(l) <==> m0.insert(loc@, 1u32).contains_key(l) by {
            if has_location(after, l) {
                let k = choose|k: int| 0 <= k < after.len() && #[trigger] after[k].0@ == l;
                if k < before.len() {
                    assert(before[k].0@ == l);
                }
            }
            if has_location(before, l) {
                let k = choose|k: int| 0 <= k < before.len() && #[trigger] before[k].0@ == l;
                assert(after[k].0@ == l);
            }
            if l == loc@ {
                assert(after[before.len() as int].0@ == l);
            }
        }
        assert forall|l: LocValue| #[trigger] m1.contains_key(l) implies m1[l] == m0.insert(loc@, 1u32)[l] by {
            let k = choose|k: int| 0 <= k < after.len() && #[trigger] after[k].0@ == l;
            lemma_table_map_found(after, k);
            if k < before.len() {
                lemma_table_map_found(before, k);
            }
        }
        assert(m1 =~= m0.insert(loc@, 1u32));
    }
    0
}


// ---------------------------------------------------------------------------
// ElementIdStack
// ---------------------------------------------------------------------------

/// Makes an empty occurrence table (used to fill new scopes).
fn empty_table() -> (r: LocalOccurrences)
    ensures
        scope_entries(r) == Seq::<(SourceLocation, u32)>::empty(),
{
    table_new()
}

/// Stack of normalized element identity path segments.
///
/// The stack stores both the current path and the parent-scoped resolver
/// state needed to turn caller locations into deterministic local segments:
/// one occurrence table per scope (the root scope plus one per pushed
/// segment). The explicit (non-local) siblings recorded per scope are kept
/// as ghost state: pushing an explicit sibling twice into one scope is a
/// caller error, so `push` and `push_resolved` require that it does not happen.
pub struct ElementIdStack {
    path: PathSegments,
    local_occurrences: ScopeTables,
    explicit_siblings: Ghost<Seq<Seq<IdValue>>>,
}

impl ElementIdStack {
    /// The current path, as values.
    pub closed spec fn path_view(&self) -> Seq<IdValue> {
        path_segments(self.path).map_values(|e: ElementId| e@)
    }

    /// One occurrence map per scope, innermost last.
    pub closed spec fn tables_view(&self) -> Seq<Map<LocValue, u32>> {
        scope_tables(self.local_occurrences).map_values(|t: LocalOccurrences| table_map(scope_entries(t)))
    }

    /// The explicit sibling ids recorded per scope, innermost last.
    pub closed spec fn siblings_view(&self) -> Seq<Seq<IdValue>> {
        self.explicit_siblings@
    }

    /// The occurrence map of the innermost scope.
    pub open spec fn current_table(&self) -> Map<LocValue, u32> {
        self.tables_view().last()
    }

    /// Well-formedness: one scope per path segment plus the root scope, and
    /// no location recorded twice in a scope's table.
    pub closed spec fn wf(&self) -> bool {
        &&& scope_tables(self.local_occurrences).len() == path_segments(self.path).len() + 1
        &&& self.explicit_siblings@.len() == path_segments(self.path).len() + 1
        &&& forall|i: int| 0 <= i < scope_tables(self.local_occurrences).len()
            ==> unique_locations(scope_entries(#[trigger] scope_tables(self.local_occurrences)[i]))
    }

    /// Machine limit: the path (and with it the scope stack) can grow by one
    /// more segment.
    pub open spec fn can_grow(&self) -> bool {
        self.path_view().len() + 2 < usize::MAX
    }

    /// Machine limit: the innermost occurrence table can take one more entry.
    pub closed spec fn table_has_room(&self) -> bool {
        scope_entries(scope_tables(self.local_occurrences).last()).len() + 1 < usize::MAX
    }

    /// Whether recording `id` as a sibling in the innermost scope is allowed:
    /// local ids are never recorded; explicit ids must not repeat in a scope.
    pub open spec fn sibling_allowed(&self, id: IdValue) -> bool {
        (id is Local) || !self.siblings_view().last().contains(id)
    }

    /// The sibling lists after recording `id` in the innermost scope and
    /// opening a child scope.
    pub open spec fn siblings_after_push(&self, id: IdValue) -> Seq<Seq<IdValue>> {
        let s = self.siblings_view();
        if id is Local {
            s.push(Seq::empty())
        } else {
            s.update(s.len() - 1, s.last().push(id)).push(Seq::empty())
        }
    }

    proof fn lemma_wf_facts(&self)
        requires
            self.wf(),
        ensures
            self.tables_view().len() == self.path_view().len() + 1,
            self.siblings_view().len() == self.path_view().len() + 1,
            self.path_view().len() == path_segments(self.path).len(),
    {
    }

    /// Normalizes an element id against the innermost scope.
    fn normalize(&mut self, element_id: ElementId) -> (r: ElementId)
        requires
            old(self).wf(),
            old(self).table_has_room(),
            normalize_fits(old(self).current_table(), element_id@),
        ensures
            final(self).wf(),
            r@ == normalize_value(old(self).current_table(), element_id@).0,
            final(self).tables_view() == old(self).tables_view().update(
                old(self).tables_view().len() - 1,
                normalize_value(old(self).current_table(), element_id@).1,
            ),
            final(self).path_view() == old(self).path_view(),
            path_segments(final(self).path) == path_segments(old(self).path),
            scope_tables(final(self).local_occurrences).len() == scope_tables(old(self).local_occurrences).len(),
            final(self).siblings_view() == old(self).siblings_view(),
        decreases element_id,
    {
        match element_id {
            ElementId::CodeLocation(source_location) => {
                let ghost tables0 = scope_tables(self.local_occurrences);
                let slice = tables_as_mut_slice(&mut self.local_occurrences);
                let last = slice.last_mut();
                match last {
                    Some(occurrences) => {
                        proof {
                            assert(unique_locations(scope_entries(tables0[tables0.len() - 1])));
                        }
                        let occurrence = bump_occurrence(occurrences, &source_location);
                        let r = ElementId::Local(LocalElementId::new(source_location, occurrence));
                        proof {
                            let tables1 = scope_tables(self.local_occurrences);
                            assert(tables1.len() == tables0.len());
                            assert forall|i: int| 0 <= i < tables1.len()
                                implies unique_locations(scope_entries(#[trigger] tables1[i])) by {
                                if i != tables0.len() - 1 {
                                    assert(tables1[i] == tables0[i]);
                                }
                            }
                            assert(self.tables_view() =~= old(self).tables_view().update(
                                old(self).tables_view().len() - 1,
                                normalize_value(old(self).current_table(), element_id@).1,
                            ));
                        }
                        r
                    },
                    None => {
                        proof {
                            assert(false);
                        }
                        ElementId::Local(LocalElementId::new(source_location, 0))
                    },
                }
            },
            ElementId::NamedChild(base, name) => {
                let b = self.normalize(*base);
                ElementId::NamedChild(Box::new(b), name)
            },
            other => {
                proof {
                    assert(self.tables_view() =~= old(self).tables_view().update(
                        old(self).tables_view().len() - 1,
                        normalize_value(old(self).current_table(), element_id@).1,
                    ));
                }
                other
            },
        }
    }

    /// Opens the child scope of a newly pushed segment.
    fn push_child_scope(&mut self)
        requires
            scope_tables(old(self).local_occurrences).len() + 1 < usize::MAX,
        ensures
            scope_tables(final(self).local_occurrences).len() == scope_tables(old(self).local_occurrences).len() + 1,
            final(self).tables_view() == old(self).tables_view().push(Map::<LocValue, u32>::empty()),
            forall|i: int| 0 <= i < scope_tables(old(self).local_occurrences).len()
                ==> scope_tables(final(self).local_occurrences)[i] == scope_tables(old(self).local_occurrences)[i],
            scope_entries(scope_tables(final(self).local_occurrences).last()) == Seq::<(SourceLocation, u32)>::empty(),
            final(self).path == old(self).path,
            final(self).explicit_siblings == old(self).explicit_siblings,
    {
        let t = empty_table();
        tables_push(&mut self.local_occurrences, t);
        proof {
            let e = scope_entries(scope_tables(self.local_occurrences).last());
            assert(table_map(e) =~= Map::<LocValue, u32>::empty());
            assert(self.tables_view() =~= old(self).tables_view().push(Map::<LocValue, u32>::empty()));
        }
    }

    /// Pushes an element id that was normalized during an earlier lifecycle pass.
    pub fn push_resolved(&mut self, element_id: ElementId)
        requires
            old(self).wf(),
            old(self).can_grow(),
            !(element_id@ is CodeLocation),
            old(self).sibling_allowed(element_id@),
        ensures
            final(self).wf(),
            final(self).table_has_room(),
            final(self).path_view() == old(self).path_view().push(element_id@),
            final(self).tables_view() == old(self).tables_view().push(Map::<LocValue, u32>::empty()),
            final(self).siblings_view() == old(self).siblings_after_push(element_id@),
    {
        let ghost id = element_id@;
        self.explicit_siblings = Ghost(old(self).siblings_after_push(id));
        path_push(&mut self.path, element_id);
        self.push_child_scope();
        proof {
            assert(self.path_view() =~= old(self).path_view().push(id));
            let t = scope_tables(self.local_occurrences);
            assert forall|i: int| 0 <= i < t.len() implies unique_locations(scope_entries(#[trigger] t[i])) by {
                if i < t.len() - 1 {
                    assert(t[i] == scope_tables(old(self).local_occurrences)[i]);
                }
            }
        }
    }

    /// Pushes and normalizes an element id.
    pub fn push(&mut self, element_id: ElementId)
        requires
            old(self).wf(),
            old(self).can_grow(),
            old(self).table_has_room(),
            normalize_fits(old(self).current_table(), element_id@),
            old(self).sibling_allowed(normalize_value(old(self).current_table(), element_id@).0),
        ensures
            final(self).wf(),
            final(self).table_has_room(),
            final(self).path_view() == old(self).path_view().push(
                normalize_value(old(self).current_table(), element_id@).0,
            ),
            final(self).tables_view() == old(self).tables_view().update(
                old(self).tables_view().len() - 1,
                normalize_value(old(self).current_table(), element_id@).1,
            ).push(Map::<LocValue, u32>::empty()),
            final(self).siblings_view() == old(self).siblings_after_push(
                normalize_value(old(self).current_table(), element_id@).0,
            ),
    {
        proof {
            lemma_normalized_is_resolved(old(self).current_table(), element_id@);
        }
        let element_id = self.normalize(element_id);
        self.push_resolved(element_id);
    }

    /// Pops the current element id.
    pub fn pop(&mut self) -> (r: Option<ElementId>)
        requires
            old(self).wf(),
        ensures
            final(self).wf(),
            old(self).path_view().len() == 0 ==> r is None && final(self).path_view() == old(self).path_view()
                && final(self).tables_view() == old(self).tables_view()
                && final(self).siblings_view() == old(self).siblings_view(),
            old(self).path_view().len() > 0 ==> r is Some && r.unwrap()@ == old(self).path_view().last()
                && final(self).path_view() == old(self).path_view().drop_last()
                && final(self).tables_view() == old(self).tables_view().drop_last()
                && final(self).siblings_view() == old(self).siblings_view().drop_last(),
    {
        let element_id = path_pop(&mut self.path);
        match element_id {
            None => {
                proof {
                    assert(self.path_view() =~= old(self).path_view());
                }
                None
            },
            Some(e) => {
                let _ = tables_pop(&mut self.local_occurrences);
                self.explicit_siblings = Ghost(self.explicit_siblings@.drop_last());
                proof {
                    assert(self.path_view() =~= old(self).path_view().drop_last());
                    assert(self.tables_view() =~= old(self).tables_view().drop_last());
                    let t = scope_tables(self.local_occurrences);
                    assert forall|i: int| 0 <= i < t.len() implies unique_locations(scope_entries(#[trigger] t[i])) by {
                        assert(t[i] == scope_tables(old(self).local_occurrences)[i]);
                    }
                    assert(t.last() == scope_tables(old(self).local_occurrences)[t.len() - 1]);
                }
                Some(e)
            },
        }
    }

    /// Starts a new lifecycle pass without changing the current path.
    pub fn begin_pass(&mut self)
        requires
            old(self).path_view().len() == 0,
        ensures
            final(self).wf(),
            final(self).can_grow(),
            final(self).table_has_room(),
            final(self).path_view() == old(self).path_view(),
            final(self).tables_view() == seq![Map::<LocValue, u32>::empty()],
            final(self).siblings_view() == seq![Seq::<IdValue>::empty()],
    {
        let scope_count = path_len(&self.path) + 1;
        tables_clear(&mut self.local_occurrences);
        tables_resize_with_empty(&mut self.local_occurrences, scope_count);
        self.explicit_siblings = Ghost(Seq::<Seq<IdValue>>::empty().push(Seq::<IdValue>::empty()));
        proof {
            let t = scope_tables(self.local_occurrences);
            assert(scope_entries(t[0]) == Seq::<(SourceLocation, u32)>::empty());
            assert(table_map(scope_entries(t[0])) =~= Map::<LocValue, u32>::empty());
            assert(self.tables_view() =~= seq![Map::<LocValue, u32>::empty()]);
            assert forall|i: int| 0 <= i < t.len() implies unique_locations(scope_entries(#[trigger] t[i])) by {
                assert(i == 0);
            }
        }
    }

    /// Clears the path and resolver state.
    pub fn clear(&mut self)
        ensures
            final(self).wf(),
            final(self).can_grow(),
            final(self).table_has_room(),
            final(self).path_view() == Seq::<IdValue>::empty(),
            final(self).tables_view() == seq![Map::<LocValue, u32>::empty()],
            final(self).siblings_view() == seq![Seq::<IdValue>::empty()],
    {
        path_clear(&mut self.path);
        proof {
            assert(self.path_view() =~= Seq::<IdValue>::empty());
        }
        self.begin_pass();
    }

    /// Whether the machine limits allow one more push: the path can grow and
    /// the innermost occurrence table can take one more entry.
    pub fn has_room(&self) -> (r: bool)
        requires
            self.wf(),
        ensures
            r == (self.can_grow() && self.table_has_room()),
    {
        let depth = path_len(&self.path);
        if depth >= usize::MAX - 2 {
            return false;
        }
        let tables = tables_as_slice(&self.local_occurrences);
        let innermost = &tables[tables.len() - 1];
        let entries = table_len(innermost);
        proof {
            assert(self.path_view().len() == path_segments(self.path).len());
        }
        entries < usize::MAX - 1
    }

    /// Returns the number of path segments.
    pub fn len(&self) -> (r: usize)
        ensures
            r == self.path_view().len(),
    {
        path_len(&self.path)
    }

    /// The current path segments, outermost first.
    pub fn as_slice(&self) -> (r: &[ElementId])
        ensures
            r@.map_values(|e: ElementId| e@) == self.path_view(),
            r@.len() == self.path_view().len(),
    {
        path_as_slice(&self.path)
    }

    /// A fresh stack: empty path, one empty root scope.
    pub fn new() -> (r: Self)
        ensures
            r.wf(),
            r.can_grow(),
            r.table_has_room(),
            r.path_view() == Seq::<IdValue>::empty(),
            r.tables_view() == seq![Map::<LocValue, u32>::empty()],
            r.siblings_view() == seq![Seq::<IdValue>::empty()],
    {
        let mut this = ElementIdStack {
            path: path_new(),
            local_occurrences: tables_new(),
            explicit_siblings: Ghost(Seq::empty()),
        };
        this.push_child_scope();
        this.explicit_siblings = Ghost(Seq::<Seq<IdValue>>::empty().push(Seq::<IdValue>::empty()));
        proof {
            assert(this.path_view() =~= Seq::<IdValue>::empty());
            assert(this.tables_view() =~= seq![Map::<LocValue, u32>::empty()]);
            let t = scope_tables(this.local_occurrences);
            assert forall|i: int| 0 <= i < t.len() implies unique_locations(scope_entries(#[trigger] t[i])) by {
                assert(i == 0);
            }
        }
        this
    }
}

impl Default for ElementIdStack {
    fn default() -> (r: Self)
        ensures
            r.wf(),
            r.can_grow(),
            r.table_has_room(),
            r.path_view() == Seq::<IdValue>::empty(),
            r.tables_view() == seq![Map::<LocValue, u32>::empty()],
            r.siblings_view() == seq![Seq::<IdValue>::empty()],
    {
        ElementIdStack::new()
    }
}

/// An id holds no raw code location anywhere (it is already normalized).
pub open spec fn resolved(id: IdValue) -> bool
    decreases id,
{
    match id {
        IdValue::CodeLocation(_) => false,
        IdValue::NamedChild(base, _) => resolved(*base),
        _ => true,
    }
}

/// Normalizing is idempotent: its result is resolved, and normalizing a
/// resolved id changes neither the id nor the occurrence table.
pub proof fn law_normalize_idempotent(table: Map<LocValue, u32>, id: IdValue)
    ensures
        resolved(normalize_value(table, id).0),
        resolved(id) ==> normalize_value(table, id) == (id, table),
    decreases id,
{
    match id {
        IdValue::NamedChild(base, name) => {
            law_normalize_idempotent(table, *base);
        },
        _ => {},
    }
}

/// Repeated callsites count up within a scope: the first sighting of a
/// location in a fresh scope is occurrence 0, and each sighting in the
/// same scope gets the next occurrence.
pub proof fn law_local_occurrences_count_up(table: Map<LocValue, u32>, loc: LocValue)
    ensures
        normalize_value(Map::<LocValue, u32>::empty(), IdValue::CodeLocation(loc)).0 == IdValue::Local(loc, 0),
        seen(table, loc) < u32::MAX ==> ({
            let first = normalize_value(table, IdValue::CodeLocation(loc));
            let second = normalize_value(first.1, IdValue::CodeLocation(loc));
            &&& first.0 == IdValue::Local(loc, seen(table, loc))
            &&& second.0 == IdValue::Local(loc, (seen(table, loc) + 1) as u32)
        }),
{
}

/// Occurrences are scoped: sighting one location never changes the count
/// of another.
pub proof fn law_occurrences_are_per_location(table: Map<LocValue, u32>, loc: LocValue, other: LocValue)
    requires
        loc != other,
    ensures
        seen(normalize_value(table, IdValue::CodeLocation(loc)).1, other) == seen(table, other),
{
}

/// Pushing a segment and popping it again restores the path and the
/// sibling lists, and keeps the parent scope's occurrence counts from the
/// push (so a repeated callsite in the parent gets the next occurrence).
pub proof fn law_pop_undoes_push(
    before: ElementIdStack,
    pushed: ElementIdStack,
    popped: ElementIdStack,
    id: IdValue,
)
    requires
        before.wf(),
        pushed.path_view() == before.path_view().push(normalize_value(before.current_table(), id).0),
        pushed.tables_view() == before.tables_view().update(
            before.tables_view().len() - 1,
            normalize_value(before.current_table(), id).1,
        ).push(Map::<LocValue, u32>::empty()),
        pushed.siblings_view() == before.siblings_after_push(normalize_value(before.current_table(), id).0),
        popped.path_view() == pushed.path_view().drop_last(),
        popped.tables_view() == pushed.tables_view().drop_last(),
        popped.siblings_view() == pushed.siblings_view().drop_last(),
    ensures
        popped.path_view() == before.path_view(),
        popped.tables_view() == before.tables_view().update(
            before.tables_view().len() - 1,
            normalize_value(before.current_table(), id).1,
        ),
        popped.current_table() == normalize_value(before.current_table(), id).1,
        popped.siblings_view().len() == before.siblings_view().len(),
        popped.siblings_view().drop_last() == before.siblings_view().drop_last(),
{
    before.lemma_wf_facts();
    assert(popped.path_view() =~= before.path_view());
    assert(popped.tables_view() =~= before.tables_view().update(
        before.tables_view().len() - 1,
        normalize_value(before.current_table(), id).1,
    ));
    let n = normalize_value(before.current_table(), id).0;
    let s = before.siblings_view();
    if n is Local {
        assert(popped.siblings_view() =~= s);
    } else {
        assert(popped.siblings_view() =~= s.update(s.len() - 1, s.last().push(n)));
        assert(popped.siblings_view().drop_last() =~= s.drop_last());
    }
}

/// Normalization never yields a raw code location.
proof fn lemma_normalized_is_resolved(table: Map<LocValue, u32>, id: IdValue)
    ensures
        !(normalize_value(table, id).0 is CodeLocation),
{
}

} // verus!
