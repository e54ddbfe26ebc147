//! Level documents of the sample platformer.
//!
//! A document is a `platformer-level 1` header followed, in any order, by one
//! `next-id` counter, one `spawn` point and any number of `platform`
//! rectangles. Coordinates are read and checked by functions the caller
//! supplies, so the document rules here hold whatever number type the game
//! uses.
use vstd::prelude::*;

use vstd::string::StringExecFns;

use crate::text::{
    chars_of, debug_quoted, decimal, decimal_text, fields, is_field, joined, lemma_decimal_reads_back,
    lemma_fields_of_spaced, lemma_lines_of_joined, lemma_spaced_one_line, lines, parse_unsigned,
    parse_unsigned_text, quoted, spaced, spells, split_fields, split_lines, text_of, texts,
};

verus! {

broadcast use vstd::std_specs::vec::group_vec_axioms;

/// The only document version this parser reads.
pub const FORMAT_VERSION: u32 = 1;

/// Why a coordinate field does not hold a usable coordinate.
#[derive(Clone, Copy, Debug, PartialEq, Eq, Structural)]
pub enum CoordinateError {
    /// The text is not a number.
    Invalid,
    /// The number is infinite or not a number.
    NotFinite,
}

/// The verdict on one side of a platform: its origin and its size.
#[derive(Clone, Copy, Debug, PartialEq, Eq, Structural)]
pub enum Extent {
    /// The size is positive and the far edge is finite.
    Valid,
    /// The size is zero or negative.
    NotPositive,
    /// Origin plus size is not finite.
    Unbounded,
}

/// A level spawn position.
#[derive(Clone, Copy, Debug, PartialEq)]
pub struct SpawnPoint<C> {
    /// Horizontal position. Positive values point right.
    pub x: C,
    /// Vertical position. Positive values point up.
    pub y: C,
}

/// A platform rectangle; its position is the lower-left corner. Platform
/// IDs are nonzero and unique within a level.
#[derive(Clone, Copy, Debug, PartialEq)]
pub struct Platform<C> {
    /// Stable platform identifier.
    pub id: u64,
    /// Horizontal position of the lower-left corner.
    pub x: C,
    /// Vertical position of the lower-left corner.
    pub y: C,
    /// Rectangle width.
    pub width: C,
    /// Rectangle height.
    pub height: C,
}

/// A completely validated level: created only by parsing, with its platforms
/// sorted by ID.
#[derive(Clone, Debug, PartialEq)]
pub struct Level<C> {
    next_id: u64,
    spawn: SpawnPoint<C>,
    platforms: Vec<Platform<C>>,
}

/// A parsing error with its one-based line and its record.
#[derive(Clone, Debug, PartialEq, Eq)]
pub struct ParseError {
    line: usize,
    record: String,
    message: String,
}

/// A level as values: next ID, spawn point and platforms.
pub type LevelView<C> = (u64, SpawnPoint<C>, Seq<Platform<C>>);

/// A parse error as values: line, record and message.
pub type ErrorView = (nat, Seq<char>, Seq<char>);

/// What a scan has gathered: whether the header was seen, the counter and
/// its line, the spawn point, and the platforms sorted by ID.
pub type ScanView<C> = (bool, Option<(u64, nat)>, Option<SpawnPoint<C>>, Seq<Platform<C>>);

impl View for ParseError {
    type V = ErrorView;

    closed spec fn view(&self) -> ErrorView {
        (self.line as nat, self.record@, self.message@)
    }
}

impl<C> View for Level<C> {
    type V = LevelView<C>;

    closed spec fn view(&self) -> LevelView<C> {
        (self.next_id, self.spawn, self.platforms@)
    }
}

/// The coordinates that `coordinate` reads are those of `reader`.
pub open spec fn reads_as<C, P: Fn(&str) -> Result<C, CoordinateError>>(
    coordinate: P,
    reader: spec_fn(Seq<char>) -> Result<C, CoordinateError>,
) -> bool {
    forall|t: &str, r: Result<C, CoordinateError>| #[trigger]
        coordinate.ensures((t,), r) ==> r == reader(t@)
}

/// The verdicts that `extent` gives are those of `judge`.
pub open spec fn measures_as<C, E: Fn(C, C) -> Extent>(extent: E, judge: spec_fn(C, C) -> Extent) -> bool {
    forall|a: C, b: C, r: Extent| #[trigger] extent.ensures((a, b), r) ==> r == judge(a, b)
}

pub open spec fn header_name() -> Seq<char> {
    "platformer-level"@
}

pub open spec fn next_id_name() -> Seq<char> {
    "next-id"@
}

pub open spec fn spawn_name() -> Seq<char> {
    "spawn"@
}

pub open spec fn platform_name() -> Seq<char> {
    "platform"@
}

pub open spec fn missing_message(field: Seq<char>) -> Seq<char> {
    "missing "@ + field + " field"@
}

pub open spec fn invalid_message(field: Seq<char>, text: Seq<char>) -> Seq<char> {
    "invalid "@ + field + " value "@ + debug_quoted(text)
}

pub open spec fn not_finite_message(field: Seq<char>) -> Seq<char> {
    field + " must be finite"@
}

pub open spec fn extra_message(text: Seq<char>) -> Seq<char> {
    "unexpected extra field "@ + debug_quoted(text)
}

pub open spec fn unsupported_message(version: nat) -> Seq<char> {
    "unsupported version "@ + decimal(version) + "; expected 1"@
}

pub open spec fn duplicate_id_message(id: nat) -> Seq<char> {
    "duplicate platform ID "@ + decimal(id)
}

pub open spec fn counter_message(next_id: nat, maximum: nat) -> Seq<char> {
    "counter "@ + decimal(next_id) + " must be greater than every platform ID (maximum "@ + decimal(
        maximum,
    ) + ")"@
}

/// Field `k` of a record as an unsigned number of at most `max`.
pub open spec fn number_field(f: Seq<Seq<char>>, k: int, name: Seq<char>, max: nat) -> Result<nat, Seq<char>> {
    if k >= f.len() {
        Err(missing_message(name))
    } else {
        match parse_unsigned(f[k], max) {
            Some(v) => Ok(v),
            None => Err(invalid_message(name, f[k])),
        }
    }
}

/// Field `k` of a record as a finite coordinate.
pub open spec fn coordinate_field<C>(
    f: Seq<Seq<char>>,
    k: int,
    name: Seq<char>,
    reader: spec_fn(Seq<char>) -> Result<C, CoordinateError>,
) -> Result<C, Seq<char>> {
    if k >= f.len() {
        Err(missing_message(name))
    } else {
        match reader(f[k]) {
            Ok(c) => Ok(c),
            Err(CoordinateError::Invalid) => Err(invalid_message(name, f[k])),
            Err(CoordinateError::NotFinite) => Err(not_finite_message(name)),
        }
    }
}

/// The complaint about a record with more than `n` fields.
pub open spec fn extra_field(f: Seq<Seq<char>>, n: int) -> Option<Seq<char>> {
    if f.len() > n {
        Some(extra_message(f[n]))
    } else {
        None
    }
}

/// Whether some platform has ID `id`.
pub open spec fn has_id<C>(s: Seq<Platform<C>>, id: u64) -> bool {
    exists|i: int| 0 <= i < s.len() && #[trigger] s[i].id == id
}

/// Platforms with nonzero IDs in strictly increasing order.
pub open spec fn sorted_ids<C>(s: Seq<Platform<C>>) -> bool {
    &&& forall|i: int| 0 <= i < s.len() ==> #[trigger] s[i].id > 0
    &&& forall|i: int, j: int| 0 <= i < j < s.len() ==> #[trigger] s[i].id < #[trigger] s[j].id
}

/// `s` with `p` placed before the platforms of larger ID.
pub open spec fn insert_sorted<C>(s: Seq<Platform<C>>, p: Platform<C>) -> Seq<Platform<C>>
    decreases s.len(),
{
    if s.len() == 0 || s.last().id < p.id {
        s.push(p)
    } else {
        insert_sorted(s.drop_last(), p).push(s.last())
    }
}

/// The header line: its name and a supported version, nothing more.
pub open spec fn header_step<C>(s: ScanView<C>, line: nat, f: Seq<Seq<char>>) -> Result<ScanView<C>, ErrorView> {
    if f[0] != header_name() {
        Err((line, f[0], "the first nonblank line must be the platformer-level header"@))
    } else {
        match number_field(f, 1, "version"@, u32::MAX as nat) {
            Err(m) => Err((line, f[0], m)),
            Ok(version) => match extra_field(f, 2) {
                Some(m) => Err((line, f[0], m)),
                None => if version != 1 {
                    Err((line, f[0], unsupported_message(version)))
                } else {
                    Ok((true, s.1, s.2, s.3))
                },
            },
        }
    }
}

/// A `next-id` record: the first one, with a nonzero counter.
pub open spec fn next_id_step<C>(s: ScanView<C>, line: nat, f: Seq<Seq<char>>) -> Result<ScanView<C>, ErrorView> {
    if s.1 is Some {
        Err((line, f[0], "duplicate next-id record"@))
    } else {
        match number_field(f, 1, "counter"@, u64::MAX as nat) {
            Err(m) => Err((line, f[0], m)),
            Ok(counter) => match extra_field(f, 2) {
                Some(m) => Err((line, f[0], m)),
                None => if counter == 0 {
                    Err((line, f[0], "counter must be nonzero"@))
                } else {
                    Ok((s.0, Some((counter as u64, line)), s.2, s.3))
                },
            },
        }
    }
}

/// A `spawn` record: the first one, with two finite coordinates.
pub open spec fn spawn_step<C>(
    s: ScanView<C>,
    line: nat,
    f: Seq<Seq<char>>,
    reader: spec_fn(Seq<char>) -> Result<C, CoordinateError>,
) -> Result<ScanView<C>, ErrorView> {
    if s.2 is Some {
        Err((line, f[0], "duplicate spawn record"@))
    } else {
        match coordinate_field(f, 1, "x"@, reader) {
            Err(m) => Err((line, f[0], m)),
            Ok(x) => match coordinate_field(f, 2, "y"@, reader) {
                Err(m) => Err((line, f[0], m)),
                Ok(y) => match extra_field(f, 3) {
                    Some(m) => Err((line, f[0], m)),
                    None => Ok((s.0, s.1, Some(SpawnPoint { x, y }), s.3)),
                },
            },
        }
    }
}

/// The checks on a platform whose fields were read: its ID is new and
/// nonzero, and both sides are valid.
pub open spec fn platform_checks<C>(
    s: ScanView<C>,
    line: nat,
    record: Seq<char>,
    p: Platform<C>,
    judge: spec_fn(C, C) -> Extent,
) -> Result<ScanView<C>, ErrorView> {
    let across = judge(p.x, p.width);
    let up = judge(p.y, p.height);
    if p.id == 0 {
        Err((line, record, "platform ID must be nonzero"@))
    } else if has_id(s.3, p.id) {
        Err((line, record, duplicate_id_message(p.id as nat)))
    } else if across == Extent::NotPositive {
        Err((line, record, "width must be strictly positive"@))
    } else if up == Extent::NotPositive {
        Err((line, record, "height must be strictly positive"@))
    } else if across == Extent::Unbounded {
        Err((line, record, "x plus width must be finite"@))
    } else if up == Extent::Unbounded {
        Err((line, record, "y plus height must be finite"@))
    } else {
        Ok((s.0, s.1, s.2, insert_sorted(s.3, p)))
    }
}

/// A `platform` record: an ID and four finite coordinates, then the checks.
pub open spec fn platform_step<C>(
    s: ScanView<C>,
    line: nat,
    f: Seq<Seq<char>>,
    reader: spec_fn(Seq<char>) -> Result<C, CoordinateError>,
    judge: spec_fn(C, C) -> Extent,
) -> Result<ScanView<C>, ErrorView> {
    match number_field(f, 1, "ID"@, u64::MAX as nat) {
        Err(m) => Err((line, f[0], m)),
        Ok(id) => match coordinate_field(f, 2, "x"@, reader) {
            Err(m) => Err((line, f[0], m)),
            Ok(x) => match coordinate_field(f, 3, "y"@, reader) {
                Err(m) => Err((line, f[0], m)),
                Ok(y) => match coordinate_field(f, 4, "width"@, reader) {
                    Err(m) => Err((line, f[0], m)),
                    Ok(width) => match coordinate_field(f, 5, "height"@, reader) {
                        Err(m) => Err((line, f[0], m)),
                        Ok(height) => match extra_field(f, 6) {
                            Some(m) => Err((line, f[0], m)),
                            None => platform_checks(
                                s,
                                line,
                                f[0],
                                Platform { id: id as u64, x, y, width, height },
                                judge,
                            ),
                        },
                    },
                },
            },
        },
    }
}

/// One line of the document, with its fields `f`.
pub open spec fn line_step<C>(
    s: ScanView<C>,
    line: nat,
    f: Seq<Seq<char>>,
    reader: spec_fn(Seq<char>) -> Result<C, CoordinateError>,
    judge: spec_fn(C, C) -> Extent,
) -> Result<ScanView<C>, ErrorView> {
    if f.len() == 0 {
        Ok(s)
    } else if !s.0 {
        header_step(s, line, f)
    } else if f[0] == header_name() {
        Err((line, f[0], "the header may appear only once and must be first"@))
    } else if f[0] == next_id_name() {
        next_id_step(s, line, f)
    } else if f[0] == spawn_name() {
        spawn_step(s, line, f, reader)
    } else if f[0] == platform_name() {
        platform_step(s, line, f, reader, judge)
    } else {
        Err((line, f[0], "unknown record"@))
    }
}

/// The scan of the first lines of a document, or its first error.
pub open spec fn scan_lines<C>(
    ls: Seq<Seq<char>>,
    reader: spec_fn(Seq<char>) -> Result<C, CoordinateError>,
    judge: spec_fn(C, C) -> Extent,
) -> Result<ScanView<C>, ErrorView>
    decreases ls.len(),
{
    if ls.len() == 0 {
        Ok((false, None, None, Seq::empty()))
    } else {
        match scan_lines(ls.drop_last(), reader, judge) {
            Err(e) => Err(e),
            Ok(s) => line_step(s, ls.len(), fields(ls.last()), reader, judge),
        }
    }
}

/// The line just after a document of `count` lines.
pub open spec fn end_line(count: nat) -> nat {
    if count < usize::MAX {
        count + 1
    } else {
        usize::MAX as nat
    }
}

/// The level a complete scan of `count` lines describes: it needs a header,
/// a spawn point, and a counter above every platform ID.
pub open spec fn finish_scan<C>(s: ScanView<C>, count: nat) -> Result<LevelView<C>, ErrorView> {
    if !s.0 {
        Err((1, "header"@, "the document must contain a platformer-level header"@))
    } else if s.2 is None {
        Err((end_line(count), spawn_name(), "missing required spawn record"@))
    } else if s.1 is None {
        Err((end_line(count), next_id_name(), "missing required next-id record"@))
    } else {
        let counter = s.1.unwrap();
        if s.3.len() > 0 && counter.0 <= s.3.last().id {
            Err((counter.1, next_id_name(), counter_message(counter.0 as nat, s.3.last().id as nat)))
        } else {
            Ok((counter.0, s.2.unwrap(), s.3))
        }
    }
}

/// The level that `text` describes, or the first error in it, when
/// coordinates are read by `reader` and sides judged by `judge`.
pub open spec fn parse_spec<C>(
    text: Seq<char>,
    reader: spec_fn(Seq<char>) -> Result<C, CoordinateError>,
    judge: spec_fn(C, C) -> Extent,
) -> Result<LevelView<C>, ErrorView> {
    match scan_lines(lines(text), reader, judge) {
        Err(e) => Err(e),
        Ok(s) => finish_scan(s, lines(text).len()),
    }
}

impl ParseError {
    fn new(line: usize, record: String, message: String) -> (r: ParseError)
        ensures
            r@ == (line as nat, record@, message@),
    {
        ParseError { line, record, message }
    }

    /// Returns the one-based source line associated with this error.
    pub fn line(&self) -> (r: usize)
        ensures
            r as nat == self@.0,
    {
        self.line
    }

    /// Returns the record name associated with this error.
    pub fn record(&self) -> (r: &str)
        ensures
            r@ == self@.1,
    {
        self.record.as_str()
    }

    /// Returns the specific error description.
    pub fn message(&self) -> (r: &str)
        ensures
            r@ == self@.2,
    {
        self.message.as_str()
    }

    /// The error as one line: `line`, the line number, the record and the
    /// message.
    pub fn describe(&self) -> (r: String)
        ensures
            r@ == "line "@ + decimal(self@.0) + ": "@ + self@.1 + " record: "@ + self@.2,
    {
        let line = decimal_text(self.line as u64);
        "line ".to_owned().concat(line.as_str()).concat(": ").concat(self.record.as_str()).concat(
            " record: ",
        ).concat(self.message.as_str())
    }
}

/// The complaint about field `field` whose text, in debug notation, is
/// `quoted_text`.
pub fn invalid_value_message(field: &str, quoted_text: &str) -> (r: String)
    ensures
        r@ == "invalid "@ + field@ + " value "@ + quoted_text@,
{
    "invalid ".to_owned().concat(field).concat(" value ").concat(quoted_text)
}

/// The complaint about a surplus field whose text, in debug notation, is
/// `quoted_text`.
pub fn extra_field_message(quoted_text: &str) -> (r: String)
    ensures
        r@ == "unexpected extra field "@ + quoted_text@,
{
    "unexpected extra field ".to_owned().concat(quoted_text)
}

fn missing_text(field: &str) -> (r: String)
    ensures
        r@ == missing_message(field@),
{
    "missing ".to_owned().concat(field).concat(" field")
}

fn invalid_text(field: &str, token: &Vec<char>) -> (r: String)
    ensures
        r@ == invalid_message(field@, token@),
{
    let text = text_of(token);
    let q = quoted(text.as_str());
    invalid_value_message(field, q.as_str())
}

/// Field `k` of `f` as an unsigned number of at most `max`.
fn read_number(f: &Vec<Vec<char>>, k: usize, name: &str, max: u64) -> (r: Result<u64, String>)
    ensures
        number_field(texts(f@), k as int, name@, max as nat) == match r {
            Ok(v) => Ok::<nat, Seq<char>>(v as nat),
            Err(m) => Err(m@),
        },
{
    if k >= f.len() {
        return Err(missing_text(name));
    }
    match parse_unsigned_text(&f[k], max) {
        Some(v) => Ok(v),
        None => Err(invalid_text(name, &f[k])),
    }
}

/// Field `k` of `f` as a finite coordinate.
fn read_coordinate<C, P: Fn(&str) -> Result<C, CoordinateError>>(
    f: &Vec<Vec<char>>,
    k: usize,
    name: &str,
    coordinate: &P,
) -> (r: Result<C, String>)
    requires
        forall|t: &str| coordinate.requires((t,)),
    ensures
        forall|reader: spec_fn(Seq<char>) -> Result<C, CoordinateError>| #[trigger]
            reads_as(*coordinate, reader) ==> coordinate_field(texts(f@), k as int, name@, reader)
                == match r {
                Ok(c) => Ok::<C, Seq<char>>(c),
                Err(m) => Err(m@),
            },
{
    if k >= f.len() {
        return Err(missing_text(name));
    }
    let text = text_of(&f[k]);
    let token = text.as_str();
    let read = coordinate(token);
    proof {
        assert forall|reader: spec_fn(Seq<char>) -> Result<C, CoordinateError>| #[trigger]
            reads_as(*coordinate, reader) implies reader(f@[k as int]@) == read by {
            assert(coordinate.ensures((token,), read));
        }
    }
    match read {
        Ok(c) => Ok(c),
        Err(CoordinateError::Invalid) => Err(invalid_text(name, &f[k])),
        Err(CoordinateError::NotFinite) => Err(name.to_owned().concat(" must be finite")),
    }
}

/// The complaint about fields of `f` beyond the first `n`.
fn check_extra(f: &Vec<Vec<char>>, n: usize) -> (r: Option<String>)
    ensures
        extra_field(texts(f@), n as int) == match r {
            Some(m) => Some(m@),
            None => None::<Seq<char>>,
        },
{
    if f.len() > n {
        let text = text_of(&f[n]);
        let q = quoted(text.as_str());
        Some(extra_field_message(q.as_str()))
    } else {
        None
    }
}

/// What a scan over the lines of a document has gathered so far.
struct Scan<C> {
    header_seen: bool,
    next_id: Option<u64>,
    next_id_line: usize,
    spawn: Option<SpawnPoint<C>>,
    platforms: Vec<Platform<C>>,
}

impl<C> Scan<C> {
    spec fn state(&self) -> ScanView<C> {
        (
            self.header_seen,
            match self.next_id {
                Some(v) => Some((v, self.next_id_line as nat)),
                None => None,
            },
            self.spawn,
            self.platforms@,
        )
    }
}

/// Whether a step left `after` and returned `r` as `expected` says.
spec fn scan_outcome<C>(expected: Result<ScanView<C>, ErrorView>, after: ScanView<C>, r: Result<(), ParseError>) -> bool {
    match expected {
        Ok(s) => r is Ok && after == s,
        Err(e) => r matches Err(pe) && pe@ == e,
    }
}

proof fn lemma_insert_sorted<C>(s: Seq<Platform<C>>, p: Platform<C>, k: int)
    requires
        0 <= k <= s.len(),
        forall|i: int| 0 <= i < k ==> #[trigger] s[i].id < p.id,
        forall|i: int| k <= i < s.len() ==> #[trigger] s[i].id > p.id,
    ensures
        insert_sorted(s, p) == s.take(k).push(p) + s.skip(k),
    decreases s.len(),
{
    if s.len() == 0 {
        assert(s.take(k).push(p) + s.skip(k) =~= s.push(p));
    } else if s.last().id < p.id {
        assert(s[s.len() - 1].id < p.id);
        assert(s.take(k).push(p) + s.skip(k) =~= s.push(p));
    } else {
        assert(s[s.len() - 1].id > p.id);
        lemma_insert_sorted(s.drop_last(), p, k);
        assert((s.drop_last().take(k).push(p) + s.drop_last().skip(k)).push(s.last()) =~= s.take(k).push(p)
            + s.skip(k));
    }
}

/// Whether some platform of `platforms` has ID `id`.
fn contains_id<C>(platforms: &Vec<Platform<C>>, id: u64) -> (r: bool)
    ensures
        r == has_id(platforms@, id),
{
    let mut i: usize = 0;
    while i < platforms.len()
        invariant
            i <= platforms@.len(),
            forall|j: int| 0 <= j < i ==> #[trigger] platforms@[j].id != id,
        decreases platforms@.len() - i,
    {
        if platforms[i].id == id {
            return true;
        }
        i += 1;
    }
    false
}

/// Where `p` goes among platforms sorted by ID: after those of smaller ID.
pub open spec fn insert_position<C>(s: Seq<Platform<C>>, id: u64) -> nat
    decreases s.len(),
{
    if s.len() == 0 || s.last().id < id {
        s.len()
    } else {
        insert_position(s.drop_last(), id)
    }
}

proof fn lemma_insert_position<C>(s: Seq<Platform<C>>, id: u64)
    requires
        sorted_ids(s),
        !has_id(s, id),
    ensures
        insert_position(s, id) <= s.len(),
        forall|i: int| 0 <= i < insert_position(s, id) ==> #[trigger] s[i].id < id,
        forall|i: int| insert_position(s, id) <= i < s.len() ==> #[trigger] s[i].id > id,
    decreases s.len(),
{
    if s.len() > 0 {
        if s.last().id < id {
            assert forall|i: int| 0 <= i < s.len() implies #[trigger] s[i].id < id by {
                if i < s.len() - 1 {
                    assert(s[i].id < s[s.len() - 1].id);
                }
            }
        } else {
            let d = s.drop_last();
            assert forall|i: int| 0 <= i < d.len() implies #[trigger] d[i].id > 0 by {
                assert(d[i] == s[i]);
            }
            assert forall|i: int, j: int| 0 <= i < j < d.len() implies #[trigger] d[i].id < #[trigger] d[j].id by {
                assert(d[i] == s[i] && d[j] == s[j]);
            }
            assert(!has_id(d, id)) by {
                if has_id(d, id) {
                    let i = choose|i: int| 0 <= i < d.len() && #[trigger] d[i].id == id;
                    assert(s[i].id == id);
                }
            }
            lemma_insert_position(d, id);
            assert(s[s.len() - 1].id != id);
            let k = insert_position(d, id);
            assert forall|i: int| 0 <= i < k implies #[trigger] s[i].id < id by {
                assert(d[i] == s[i]);
            }
            assert forall|i: int| k <= i < s.len() implies #[trigger] s[i].id > id by {
                if i < s.len() - 1 {
                    assert(d[i] == s[i]);
                }
            }
        }
    }
}

/// Inserting a new, nonzero ID keeps platforms sorted, and places it after
/// those of smaller ID.
proof fn lemma_insert_keeps_sorted<C>(s: Seq<Platform<C>>, p: Platform<C>)
    requires
        sorted_ids(s),
        !has_id(s, p.id),
        p.id > 0,
    ensures
        sorted_ids(insert_sorted(s, p)),
        insert_sorted(s, p) == s.take(insert_position(s, p.id) as int).push(p) + s.skip(
            insert_position(s, p.id) as int,
        ),
{
    lemma_insert_position(s, p.id);
    let k = insert_position(s, p.id) as int;
    lemma_insert_sorted(s, p, k);
    let t = insert_sorted(s, p);
    assert forall|i: int, j: int| 0 <= i < j < t.len() implies #[trigger] t[i].id < #[trigger] t[j].id by {
        if j < k {
            assert(t[i] == s[i] && t[j] == s[j]);
        } else if j == k {
            assert(t[i] == s[i]);
        } else if i < k {
            assert(t[i] == s[i] && t[j] == s[j - 1]);
        } else if i == k {
            assert(t[j] == s[j - 1]);
        } else {
            assert(t[i] == s[i - 1] && t[j] == s[j - 1]);
        }
    }
    assert forall|i: int| 0 <= i < t.len() implies #[trigger] t[i].id > 0 by {
        if i < k {
            assert(t[i] == s[i]);
        } else if i > k {
            assert(t[i] == s[i - 1]);
        }
    }
}

/// Places `p` among `platforms` by ID.
fn insert_platform<C: Copy>(platforms: &mut Vec<Platform<C>>, p: Platform<C>)
    requires
        sorted_ids(old(platforms)@),
        !has_id(old(platforms)@, p.id),
        p.id > 0,
    ensures
        final(platforms)@ == insert_sorted(old(platforms)@, p),
        sorted_ids(final(platforms)@),
{
    let ghost s = platforms@;
    proof {
        lemma_insert_keeps_sorted(s, p);
        lemma_insert_position(s, p.id);
    }
    let mut k: usize = 0;
    while k < platforms.len() && platforms[k].id < p.id
        invariant
            platforms@ == s,
            k <= insert_position(s, p.id),
            insert_position(s, p.id) <= s.len(),
            forall|i: int| insert_position(s, p.id) <= i < s.len() ==> #[trigger] s[i].id > p.id,
        decreases s.len() - k,
    {
        k += 1;
    }
    platforms.insert(k, p);
    proof {
        assert(platforms@ =~= s.take(k as int).push(p) + s.skip(k as int));
    }
}

fn fail(line: usize, record: &String, message: String) -> (r: Result<(), ParseError>)
    ensures
        r matches Err(e) && e@ == (line as nat, record@, message@),
{
    Err(ParseError::new(line, record.clone(), message))
}

/// The header line of a document.
fn header_line<C>(scan: &mut Scan<C>, line: usize, f: &Vec<Vec<char>>, record: &String) -> (r: Result<(), ParseError>)
    requires
        f@.len() > 0,
        record@ == f@[0]@,
    ensures
        scan_outcome(header_step(old(scan).state(), line as nat, texts(f@)), final(scan).state(), r),
        final(scan).platforms@ == old(scan).platforms@,
        final(scan).next_id == old(scan).next_id,
{
    if !spells(&f[0], "platformer-level") {
        return fail(line, record, "the first nonblank line must be the platformer-level header".to_owned());
    }
    let version = match read_number(f, 1, "version", 4294967295) {
        Ok(v) => v,
        Err(m) => {
            return fail(line, record, m);
        },
    };
    if let Some(m) = check_extra(f, 2) {
        return fail(line, record, m);
    }
    if version != 1 {
        let m = "unsupported version ".to_owned().concat(decimal_text(version).as_str()).concat("; expected 1");
        return fail(line, record, m);
    }
    scan.header_seen = true;
    Ok(())
}

/// A `next-id` record.
fn next_id_line<C>(scan: &mut Scan<C>, line: usize, f: &Vec<Vec<char>>, record: &String) -> (r: Result<(), ParseError>)
    requires
        f@.len() > 0,
        old(scan).next_id != Some(0u64),
        record@ == f@[0]@,
    ensures
        scan_outcome(next_id_step(old(scan).state(), line as nat, texts(f@)), final(scan).state(), r),
        final(scan).platforms@ == old(scan).platforms@,
        final(scan).next_id != Some(0u64),
{
    if scan.next_id.is_some() {
        return fail(line, record, "duplicate next-id record".to_owned());
    }
    let counter = match read_number(f, 1, "counter", u64::MAX) {
        Ok(v) => v,
        Err(m) => {
            return fail(line, record, m);
        },
    };
    if let Some(m) = check_extra(f, 2) {
        return fail(line, record, m);
    }
    if counter == 0 {
        return fail(line, record, "counter must be nonzero".to_owned());
    }
    scan.next_id = Some(counter);
    scan.next_id_line = line;
    Ok(())
}

/// A `spawn` record.
fn spawn_line<C: Copy, P: Fn(&str) -> Result<C, CoordinateError>>(
    scan: &mut Scan<C>,
    line: usize,
    f: &Vec<Vec<char>>,
    record: &String,
    coordinate: &P,
) -> (r: Result<(), ParseError>)
    requires
        f@.len() > 0,
        record@ == f@[0]@,
        forall|t: &str| coordinate.requires((t,)),
    ensures
        forall|reader: spec_fn(Seq<char>) -> Result<C, CoordinateError>| #[trigger]
            reads_as(*coordinate, reader) ==> scan_outcome(
                spawn_step(old(scan).state(), line as nat, texts(f@), reader),
                final(scan).state(),
                r,
            ),
        final(scan).platforms@ == old(scan).platforms@,
        final(scan).next_id == old(scan).next_id,
{
    if scan.spawn.is_some() {
        return fail(line, record, "duplicate spawn record".to_owned());
    }
    let x = match read_coordinate(f, 1, "x", coordinate) {
        Ok(c) => c,
        Err(m) => {
            return fail(line, record, m);
        },
    };
    let y = match read_coordinate(f, 2, "y", coordinate) {
        Ok(c) => c,
        Err(m) => {
            return fail(line, record, m);
        },
    };
    if let Some(m) = check_extra(f, 3) {
        return fail(line, record, m);
    }
    scan.spawn = Some(SpawnPoint { x, y });
    Ok(())
}

/// A `platform` record.
fn platform_line<C: Copy, P: Fn(&str) -> Result<C, CoordinateError>, E: Fn(C, C) -> Extent>(
    scan: &mut Scan<C>,
    line: usize,
    f: &Vec<Vec<char>>,
    record: &String,
    coordinate: &P,
    extent: &E,
) -> (r: Result<(), ParseError>)
    requires
        f@.len() > 0,
        record@ == f@[0]@,
        sorted_ids(old(scan).platforms@),
        forall|t: &str| coordinate.requires((t,)),
        forall|a: C, b: C| extent.requires((a, b)),
    ensures
        forall|
            reader: spec_fn(Seq<char>) -> Result<C, CoordinateError>,
            judge: spec_fn(C, C) -> Extent,
        |
            #[trigger] reads_as(*coordinate, reader) && #[trigger] measures_as(*extent, judge)
                ==> scan_outcome(
                platform_step(old(scan).state(), line as nat, texts(f@), reader, judge),
                final(scan).state(),
                r,
            ),
        sorted_ids(final(scan).platforms@),
        final(scan).next_id == old(scan).next_id,
{
    let id = match read_number(f, 1, "ID", u64::MAX) {
        Ok(v) => v,
        Err(m) => {
            return fail(line, record, m);
        },
    };
    let x = match read_coordinate(f, 2, "x", coordinate) {
        Ok(c) => c,
        Err(m) => {
            return fail(line, record, m);
        },
    };
    let y = match read_coordinate(f, 3, "y", coordinate) {
        Ok(c) => c,
        Err(m) => {
            return fail(line, record, m);
        },
    };
    let width = match read_coordinate(f, 4, "width", coordinate) {
        Ok(c) => c,
        Err(m) => {
            return fail(line, record, m);
        },
    };
    let height = match read_coordinate(f, 5, "height", coordinate) {
        Ok(c) => c,
        Err(m) => {
            return fail(line, record, m);
        },
    };
    if let Some(m) = check_extra(f, 6) {
        return fail(line, record, m);
    }
    if id == 0 {
        return fail(line, record, "platform ID must be nonzero".to_owned());
    }
    if contains_id(&scan.platforms, id) {
        let m = "duplicate platform ID ".to_owned().concat(decimal_text(id).as_str());
        return fail(line, record, m);
    }
    let across = extent(x, width);
    let up = extent(y, height);
    if across == Extent::NotPositive {
        return fail(line, record, "width must be strictly positive".to_owned());
    }
    if up == Extent::NotPositive {
        return fail(line, record, "height must be strictly positive".to_owned());
    }
    if across == Extent::Unbounded {
        return fail(line, record, "x plus width must be finite".to_owned());
    }
    if up == Extent::Unbounded {
        return fail(line, record, "y plus height must be finite".to_owned());
    }
    insert_platform(&mut scan.platforms, Platform { id, x, y, width, height });
    Ok(())
}

/// One line of a document, with fields `f`.
fn scan_line<C: Copy, P: Fn(&str) -> Result<C, CoordinateError>, E: Fn(C, C) -> Extent>(
    scan: &mut Scan<C>,
    line: usize,
    f: &Vec<Vec<char>>,
    coordinate: &P,
    extent: &E,
) -> (r: Result<(), ParseError>)
    requires
        sorted_ids(old(scan).platforms@),
        old(scan).next_id != Some(0u64),
        forall|t: &str| coordinate.requires((t,)),
        forall|a: C, b: C| extent.requires((a, b)),
    ensures
        forall|
            reader: spec_fn(Seq<char>) -> Result<C, CoordinateError>,
            judge: spec_fn(C, C) -> Extent,
        |
            #[trigger] reads_as(*coordinate, reader) && #[trigger] measures_as(*extent, judge)
                ==> scan_outcome(
                line_step(old(scan).state(), line as nat, texts(f@), reader, judge),
                final(scan).state(),
                r,
            ),
        sorted_ids(final(scan).platforms@),
        final(scan).next_id != Some(0u64),
{
    if f.len() == 0 {
        return Ok(());
    }
    let record = text_of(&f[0]);
    if !scan.header_seen {
        header_line(scan, line, f, &record)
    } else if spells(&f[0], "platformer-level") {
        fail(line, &record, "the header may appear only once and must be first".to_owned())
    } else if spells(&f[0], "next-id") {
        next_id_line(scan, line, f, &record)
    } else if spells(&f[0], "spawn") {
        spawn_line(scan, line, f, &record, coordinate)
    } else if spells(&f[0], "platform") {
        platform_line(scan, line, f, &record, coordinate, extent)
    } else {
        fail(line, &record, "unknown record".to_owned())
    }
}

proof fn lemma_scan_error_persists<C>(
    ls: Seq<Seq<char>>,
    k: int,
    reader: spec_fn(Seq<char>) -> Result<C, CoordinateError>,
    judge: spec_fn(C, C) -> Extent,
)
    requires
        0 <= k <= ls.len(),
        scan_lines(ls.take(k), reader, judge) is Err,
    ensures
        scan_lines(ls, reader, judge) == scan_lines(ls.take(k), reader, judge),
    decreases ls.len() - k,
{
    if k < ls.len() {
        assert(ls.take(k + 1).drop_last() =~= ls.take(k));
        lemma_scan_error_persists(ls, k + 1, reader, judge);
    } else {
        assert(ls.take(k) =~= ls);
    }
}

/// Levels with a nonzero next ID, and platform IDs that are nonzero,
/// strictly increasing and below the next ID.
pub open spec fn level_valid<C>(v: LevelView<C>) -> bool {
    &&& v.0 > 0
    &&& sorted_ids(v.2)
    &&& forall|i: int| 0 <= i < v.2.len() ==> #[trigger] v.2[i].id < v.0
}

/// The level a completed scan of `count` lines describes.
fn finish<C: Copy>(scan: Scan<C>, count: usize) -> (r: Result<Level<C>, ParseError>)
    requires
        sorted_ids(scan.platforms@),
        scan.next_id != Some(0u64),
    ensures
        match finish_scan(scan.state(), count as nat) {
            Ok(v) => r matches Ok(level) && level@ == v,
            Err(e) => r matches Err(pe) && pe@ == e,
        },
        r matches Ok(level) ==> level_valid(level@),
{
    if !scan.header_seen {
        return Err(
            ParseError::new(1, "header".to_owned(), "the document must contain a platformer-level header".to_owned()),
        );
    }
    let end = if count < usize::MAX {
        count + 1
    } else {
        usize::MAX
    };
    let spawn = match scan.spawn {
        Some(point) => point,
        None => {
            return Err(ParseError::new(end, "spawn".to_owned(), "missing required spawn record".to_owned()));
        },
    };
    let next_id = match scan.next_id {
        Some(counter) => counter,
        None => {
            return Err(ParseError::new(end, "next-id".to_owned(), "missing required next-id record".to_owned()));
        },
    };
    let len = scan.platforms.len();
    if len > 0 && next_id <= scan.platforms[len - 1].id {
        let maximum = scan.platforms[len - 1].id;
        let m = "counter ".to_owned().concat(decimal_text(next_id).as_str()).concat(
            " must be greater than every platform ID (maximum ",
        ).concat(decimal_text(maximum).as_str()).concat(")");
        return Err(ParseError::new(scan.next_id_line, "next-id".to_owned(), m));
    }
    let level = Level { next_id, spawn, platforms: scan.platforms };
    proof {
        let p = level.platforms@;
        assert forall|i: int| 0 <= i < p.len() implies #[trigger] p[i].id < next_id by {
            if i < p.len() - 1 {
                assert(p[i].id < p[p.len() - 1].id);
            }
        }
    }
    Ok(level)
}

impl<C: Copy> Level<C> {
    /// Parses a level document, reading each coordinate field with
    /// `coordinate` and judging each platform side, from its origin and
    /// size, with `extent`.
    ///
    /// Lines are separated by line feeds; fields by Unicode white space.
    /// Blank lines are skipped. The first error in document order is
    /// reported with its line and record.
    pub fn parse<P: Fn(&str) -> Result<C, CoordinateError>, E: Fn(C, C) -> Extent>(
        input: &str,
        coordinate: P,
        extent: E,
    ) -> (r: Result<Level<C>, ParseError>)
        requires
            forall|t: &str| coordinate.requires((t,)),
            forall|a: C, b: C| extent.requires((a, b)),
        ensures
            forall|
                reader: spec_fn(Seq<char>) -> Result<C, CoordinateError>,
                judge: spec_fn(C, C) -> Extent,
            |
                #[trigger] reads_as(coordinate, reader) && #[trigger] measures_as(extent, judge)
                    ==> parse_spec(input@, reader, judge) == match r {
                    Ok(level) => Ok::<LevelView<C>, ErrorView>(level@),
                    Err(e) => Err(e@),
                },
            r matches Ok(level) ==> level_valid(level@),
    {
        let chars = chars_of(input);
        let ls = split_lines(&chars);
        let ghost lv = texts(ls@);
        let mut scan = Scan {
            header_seen: false,
            next_id: None,
            next_id_line: 0,
            spawn: None,
            platforms: Vec::new(),
        };
        let mut i: usize = 0;
        while i < ls.len()
            invariant
                i <= ls@.len(),
                lv == texts(ls@),
                lv == lines(input@),
                sorted_ids(scan.platforms@),
                scan.next_id != Some(0u64),
                forall|t: &str| coordinate.requires((t,)),
                forall|a: C, b: C| extent.requires((a, b)),
                forall|
                    reader: spec_fn(Seq<char>) -> Result<C, CoordinateError>,
                    judge: spec_fn(C, C) -> Extent,
                |
                    #[trigger] reads_as(coordinate, reader) && #[trigger] measures_as(extent, judge)
                        ==> scan_lines(lv.take(i as int), reader, judge) == Ok::<ScanView<C>, ErrorView>(
                        scan.state(),
                    ),
            decreases ls@.len() - i,
        {
            let f = split_fields(&ls[i]);
            proof {
                assert(lv.take(i as int + 1).drop_last() =~= lv.take(i as int));
                assert(lv.take(i as int + 1).last() == ls@[i as int]@);
            }
            match scan_line(&mut scan, i + 1, &f, &coordinate, &extent) {
                Err(e) => {
                    proof {
                        assert forall|
                            reader: spec_fn(Seq<char>) -> Result<C, CoordinateError>,
                            judge: spec_fn(C, C) -> Extent,
                        |
                            #[trigger] reads_as(coordinate, reader) && #[trigger] measures_as(extent, judge)
                                implies parse_spec(input@, reader, judge) == Err::<LevelView<C>, ErrorView>(e@) by {
                            lemma_scan_error_persists(lv, i as int + 1, reader, judge);
                        }
                    }
                    return Err(e);
                },
                Ok(()) => {},
            }
            i += 1;
        }
        proof {
            assert(lv.take(i as int) =~= lv);
        }
        finish(scan, ls.len())
    }

    /// Returns the next platform ID reserved by this level.
    pub fn next_id(&self) -> (r: u64)
        ensures
            r == self@.0,
    {
        self.next_id
    }

    /// Returns the spawn position.
    pub fn spawn(&self) -> (r: SpawnPoint<C>)
        ensures
            r == self@.1,
    {
        self.spawn
    }

    /// Returns all platforms sorted by ascending ID.
    pub fn platforms(&self) -> (r: &[Platform<C>])
        ensures
            r@ == self@.2,
    {
        self.platforms.as_slice()
    }
}

/// Platforms both of whose sides `judge` accepts.
pub open spec fn sides_valid<C>(s: Seq<Platform<C>>, judge: spec_fn(C, C) -> Extent) -> bool {
    forall|i: int|
        0 <= i < s.len() ==> judge(#[trigger] s[i].x, s[i].width) == Extent::Valid && judge(s[i].y, s[i].height)
            == Extent::Valid
}

proof fn lemma_line_step_keeps_valid<C>(
    s: ScanView<C>,
    line: nat,
    f: Seq<Seq<char>>,
    reader: spec_fn(Seq<char>) -> Result<C, CoordinateError>,
    judge: spec_fn(C, C) -> Extent,
)
    requires
        sorted_ids(s.3),
        sides_valid(s.3, judge),
        s.1 matches Some(c) ==> c.0 > 0,
    ensures
        line_step(s, line, f, reader, judge) matches Ok(n) ==> sorted_ids(n.3) && sides_valid(n.3, judge) && (
        n.1 matches Some(c) ==> c.0 > 0),
{
    if f.len() > 0 && s.0 && f[0] != header_name() && f[0] != next_id_name() && f[0] != spawn_name() && f[0]
        == platform_name() {
        if let (Ok(id), Ok(x), Ok(y), Ok(width), Ok(height), None) = (
            number_field(f, 1, "ID"@, u64::MAX as nat),
            coordinate_field(f, 2, "x"@, reader),
            coordinate_field(f, 3, "y"@, reader),
            coordinate_field(f, 4, "width"@, reader),
            coordinate_field(f, 5, "height"@, reader),
            extra_field(f, 6),
        ) {
            let p = Platform { id: id as u64, x, y, width, height };
            if platform_checks(s, line, f[0], p, judge) is Ok {
                lemma_insert_keeps_sorted(s.3, p);
                lemma_insert_position(s.3, p.id);
                let k = insert_position(s.3, p.id) as int;
                let t = insert_sorted(s.3, p);
                assert forall|i: int| 0 <= i < t.len() implies judge(#[trigger] t[i].x, t[i].width)
                    == Extent::Valid && judge(t[i].y, t[i].height) == Extent::Valid by {
                    if i < k {
                        assert(t[i] == s.3[i]);
                    } else if i > k {
                        assert(t[i] == s.3[i - 1]);
                    }
                }
            }
        }
    }
}

proof fn lemma_scan_keeps_valid<C>(
    ls: Seq<Seq<char>>,
    reader: spec_fn(Seq<char>) -> Result<C, CoordinateError>,
    judge: spec_fn(C, C) -> Extent,
)
    ensures
        scan_lines(ls, reader, judge) matches Ok(s) ==> sorted_ids(s.3) && sides_valid(s.3, judge) && (s.1 matches Some(
            c,
        ) ==> c.0 > 0),
    decreases ls.len(),
{
    if ls.len() > 0 {
        lemma_scan_keeps_valid(ls.drop_last(), reader, judge);
        if let Ok(s) = scan_lines(ls.drop_last(), reader, judge) {
            lemma_line_step_keeps_valid(s, ls.len(), fields(ls.last()), reader, judge);
        }
    }
}

/// Every level that a document describes has nonzero platform IDs in
/// strictly increasing order, all below its next ID, and every platform
/// side accepted by the judge.
pub proof fn law_parsed_level_is_valid<C>(
    text: Seq<char>,
    reader: spec_fn(Seq<char>) -> Result<C, CoordinateError>,
    judge: spec_fn(C, C) -> Extent,
)
    ensures
        parse_spec(text, reader, judge) matches Ok(v) ==> level_valid(v) && sides_valid(v.2, judge),
{
    lemma_scan_keeps_valid(lines(text), reader, judge);
    if let Ok(v) = parse_spec(text, reader, judge) {
        let p = v.2;
        assert forall|i: int| 0 <= i < p.len() implies #[trigger] p[i].id < v.0 by {
            if i < p.len() - 1 {
                assert(p[i].id < p[p.len() - 1].id);
            }
        }
    }
}

/// The line a platform is written as, each coordinate shown by `shown`.
pub open spec fn platform_text<C>(p: Platform<C>, shown: spec_fn(C) -> Seq<char>) -> Seq<char> {
    "platform "@ + decimal(p.id as nat) + " "@ + shown(p.x) + " "@ + shown(p.y) + " "@ + shown(p.width) + " "@
        + shown(p.height) + "\n"@
}

/// The lines of the platforms of `s`, in order.
pub open spec fn platforms_text<C>(s: Seq<Platform<C>>, shown: spec_fn(C) -> Seq<char>) -> Seq<char>
    decreases s.len(),
{
    if s.len() == 0 {
        Seq::empty()
    } else {
        platforms_text(s.drop_last(), shown) + platform_text(s.last(), shown)
    }
}

/// The lines before the platforms: header, counter and spawn point.
pub open spec fn preamble_text<C>(v: LevelView<C>, shown: spec_fn(C) -> Seq<char>) -> Seq<char> {
    "platformer-level 1\n"@ + "next-id "@ + decimal(v.0 as nat) + "\n"@ + "spawn "@ + shown(v.1.x) + " "@
        + shown(v.1.y) + "\n"@
}

/// The document a level is written as: header, counter, spawn point, then
/// one line per platform in ID order.
pub open spec fn written<C>(v: LevelView<C>, shown: spec_fn(C) -> Seq<char>) -> Seq<char> {
    preamble_text(v, shown) + platforms_text(v.2, shown)
}

/// The texts that `show` gives for coordinates are those of `shown`.
pub open spec fn shows_as<C, F: Fn(C) -> String>(show: F, shown: spec_fn(C) -> Seq<char>) -> bool {
    forall|c: C, r: String| #[trigger] show.ensures((c,), r) ==> r@ == shown(c)
}

fn show_coordinate<C: Copy, F: Fn(C) -> String>(out: &mut String, c: C, show: &F)
    requires
        forall|c: C| show.requires((c,)),
    ensures
        forall|shown: spec_fn(C) -> Seq<char>| #[trigger]
            shows_as(*show, shown) ==> final(out)@ == old(out)@ + shown(c),
{
    let text = show(c);
    out.append(text.as_str());
    proof {
        assert forall|shown: spec_fn(C) -> Seq<char>| #[trigger] shows_as(*show, shown) implies text@
            == shown(c) by {
            assert(show.ensures((c,), text));
        }
    }
}

impl<C: Copy> Level<C> {
    /// Writes the level as a document, showing each coordinate with `show`:
    /// header, counter, spawn point, then the platforms in ID order.
    pub fn write<F: Fn(C) -> String>(&self, show: F) -> (r: String)
        requires
            forall|c: C| show.requires((c,)),
        ensures
            forall|shown: spec_fn(C) -> Seq<char>| #[trigger]
                shows_as(show, shown) ==> r@ == written(self@, shown),
    {
        let mut out = "platformer-level 1\n".to_owned();
        out.append("next-id ");
        out.append(decimal_text(self.next_id).as_str());
        out.append("\n");
        out.append("spawn ");
        show_coordinate(&mut out, self.spawn.x, &show);
        out.append(" ");
        show_coordinate(&mut out, self.spawn.y, &show);
        out.append("\n");
        let ghost start = out@;
        proof {
            assert forall|shown: spec_fn(C) -> Seq<char>| #[trigger] shows_as(show, shown) implies start
                =~= preamble_text(self@, shown) by {}
        }
        let mut i: usize = 0;
        while i < self.platforms.len()
            invariant
                i <= self.platforms@.len(),
                forall|c: C| show.requires((c,)),
                forall|shown: spec_fn(C) -> Seq<char>| #[trigger]
                    shows_as(show, shown) ==> out@ == preamble_text(self@, shown) + platforms_text(
                        self.platforms@.take(i as int),
                        shown,
                    ),
            decreases self.platforms@.len() - i,
        {
            let p = self.platforms[i];
            let ghost before = out@;
            out.append("platform ");
            out.append(decimal_text(p.id).as_str());
            out.append(" ");
            show_coordinate(&mut out, p.x, &show);
            out.append(" ");
            show_coordinate(&mut out, p.y, &show);
            out.append(" ");
            show_coordinate(&mut out, p.width, &show);
            out.append(" ");
            show_coordinate(&mut out, p.height, &show);
            out.append("\n");
            proof {
                assert(self.platforms@.take(i as int + 1).drop_last() =~= self.platforms@.take(i as int));
                assert forall|shown: spec_fn(C) -> Seq<char>| #[trigger] shows_as(show, shown) implies out@
                    == preamble_text(self@, shown) + platforms_text(self.platforms@.take(i as int + 1), shown) by {
                    assert(out@ =~= before + platform_text(p, shown));
                    assert(self.platforms@.take(i as int + 1).last() == p);
                }
            }
            i += 1;
        }
        proof {
            assert(self.platforms@.take(i as int) =~= self.platforms@);
        }
        out
    }
}

/// Whether `shown` writes `c` as one field that `reader` reads back as `c`.
pub open spec fn shows_field<C>(
    shown: spec_fn(C) -> Seq<char>,
    reader: spec_fn(Seq<char>) -> Result<C, CoordinateError>,
    c: C,
) -> bool {
    is_field(shown(c)) && reader(shown(c)) == Ok::<C, CoordinateError>(c)
}

/// Whether every coordinate of `p` is written as a field that reads back.
pub open spec fn shows_platform<C>(
    shown: spec_fn(C) -> Seq<char>,
    reader: spec_fn(Seq<char>) -> Result<C, CoordinateError>,
    p: Platform<C>,
) -> bool {
    &&& shows_field(shown, reader, p.x)
    &&& shows_field(shown, reader, p.y)
    &&& shows_field(shown, reader, p.width)
    &&& shows_field(shown, reader, p.height)
}

/// Whether every coordinate of a level is written as a field that reads back.
pub open spec fn shows_level<C>(
    v: LevelView<C>,
    shown: spec_fn(C) -> Seq<char>,
    reader: spec_fn(Seq<char>) -> Result<C, CoordinateError>,
) -> bool {
    &&& shows_field(shown, reader, v.1.x)
    &&& shows_field(shown, reader, v.1.y)
    &&& forall|i: int| 0 <= i < v.2.len() ==> shows_platform(shown, reader, #[trigger] v.2[i])
}

spec fn platform_fields<C>(p: Platform<C>, shown: spec_fn(C) -> Seq<char>) -> Seq<Seq<char>> {
    seq![platform_name(), decimal(p.id as nat), shown(p.x), shown(p.y), shown(p.width), shown(p.height)]
}

spec fn platform_line_of<C>(shown: spec_fn(C) -> Seq<char>) -> spec_fn(Platform<C>) -> Seq<char> {
    |p: Platform<C>| spaced(platform_fields(p, shown))
}

spec fn preamble_lines<C>(v: LevelView<C>, shown: spec_fn(C) -> Seq<char>) -> Seq<Seq<char>> {
    seq![
        spaced(seq![header_name(), "1"@]),
        spaced(seq![next_id_name(), decimal(v.0 as nat)]),
        spaced(seq![spawn_name(), shown(v.1.x), shown(v.1.y)]),
    ]
}

spec fn written_lines<C>(v: LevelView<C>, shown: spec_fn(C) -> Seq<char>) -> Seq<Seq<char>> {
    preamble_lines(v, shown) + v.2.map_values(platform_line_of(shown))
}

proof fn lemma_spaced_push(ts: Seq<Seq<char>>, t: Seq<char>)
    requires
        ts.len() >= 1,
    ensures
        spaced(ts.push(t)) == spaced(ts) + seq![' '] + t,
{
    assert(ts.push(t).drop_last() =~= ts);
}

proof fn lemma_spaced_one(a: Seq<char>)
    ensures
        spaced(seq![a]) == a,
{
}

proof fn lemma_joined_append(a: Seq<Seq<char>>, b: Seq<Seq<char>>)
    ensures
        joined(a + b) == joined(a) + joined(b),
    decreases b.len(),
{
    if b.len() == 0 {
        assert(a + b =~= a);
        assert(joined(a) + joined(b) =~= joined(a));
    } else {
        lemma_joined_append(a, b.drop_last());
        assert((a + b).drop_last() =~= a + b.drop_last());
        assert((a + b).last() == b.last());
        assert(joined(a + b) =~= joined(a) + joined(b));
    }
}

proof fn lemma_platform_text<C>(p: Platform<C>, shown: spec_fn(C) -> Seq<char>)
    ensures
        platform_text(p, shown) == platform_line_of(shown)(p) + seq!['\n'],
{
    let f = platform_fields(p, shown);
    lemma_spaced_one(platform_name());
    lemma_spaced_push(seq![platform_name()], decimal(p.id as nat));
    assert(seq![platform_name()].push(decimal(p.id as nat)) =~= f.take(2));
    lemma_spaced_push(f.take(2), shown(p.x));
    assert(f.take(2).push(shown(p.x)) =~= f.take(3));
    lemma_spaced_push(f.take(3), shown(p.y));
    assert(f.take(3).push(shown(p.y)) =~= f.take(4));
    lemma_spaced_push(f.take(4), shown(p.width));
    assert(f.take(4).push(shown(p.width)) =~= f.take(5));
    lemma_spaced_push(f.take(5), shown(p.height));
    assert(f.take(5).push(shown(p.height)) =~= f);
    reveal_strlit("platform ");
    reveal_strlit("platform");
    reveal_strlit(" ");
    reveal_strlit("\n");
    assert(platform_text(p, shown) =~= spaced(f) + seq!['\n']);
}

proof fn lemma_platforms_joined<C>(s: Seq<Platform<C>>, shown: spec_fn(C) -> Seq<char>)
    ensures
        joined(s.map_values(platform_line_of(shown))) == platforms_text(s, shown),
    decreases s.len(),
{
    if s.len() > 0 {
        lemma_platforms_joined(s.drop_last(), shown);
        assert(s.map_values(platform_line_of(shown)).drop_last() =~= s.drop_last().map_values(
            platform_line_of(shown),
        ));
        lemma_platform_text(s.last(), shown);
        assert(joined(s.map_values(platform_line_of(shown))) =~= platforms_text(s, shown));
    } else {
        assert(s.map_values(platform_line_of(shown)) =~= Seq::<Seq<char>>::empty());
    }
}

proof fn lemma_written_joined<C>(v: LevelView<C>, shown: spec_fn(C) -> Seq<char>)
    ensures
        written(v, shown) == joined(written_lines(v, shown)),
{
    let pre = preamble_lines(v, shown);
    lemma_spaced_one(header_name());
    lemma_spaced_push(seq![header_name()], "1"@);
    assert(seq![header_name()].push("1"@) =~= seq![header_name(), "1"@]);
    lemma_spaced_one(next_id_name());
    lemma_spaced_push(seq![next_id_name()], decimal(v.0 as nat));
    assert(seq![next_id_name()].push(decimal(v.0 as nat)) =~= seq![next_id_name(), decimal(v.0 as nat)]);
    lemma_spaced_one(spawn_name());
    lemma_spaced_push(seq![spawn_name()], shown(v.1.x));
    assert(seq![spawn_name()].push(shown(v.1.x)) =~= seq![spawn_name(), shown(v.1.x)]);
    lemma_spaced_push(seq![spawn_name(), shown(v.1.x)], shown(v.1.y));
    assert(seq![spawn_name(), shown(v.1.x)].push(shown(v.1.y)) =~= seq![spawn_name(), shown(v.1.x), shown(v.1.y)]);
    assert(pre.drop_last() =~= seq![pre[0], pre[1]]);
    assert(pre.drop_last().drop_last() =~= seq![pre[0]]);
    assert(seq![pre[0]].drop_last() =~= Seq::<Seq<char>>::empty());
    reveal_strlit("platformer-level 1\n");
    reveal_strlit("platformer-level");
    reveal_strlit("1");
    reveal_strlit("next-id ");
    reveal_strlit("next-id");
    reveal_strlit("spawn ");
    reveal_strlit("spawn");
    reveal_strlit(" ");
    reveal_strlit("\n");
    let l0 = pre[0];
    let l1 = pre[1];
    let l2 = pre[2];
    assert(joined(pre) == joined(pre.drop_last()) + l2 + seq!['\n']);
    assert(joined(pre.drop_last()) == joined(pre.drop_last().drop_last()) + l1 + seq!['\n']);
    assert(joined(pre.drop_last().drop_last()) == joined(Seq::<Seq<char>>::empty()) + l0 + seq!['\n']);
    assert(joined(pre.drop_last().drop_last()) =~= l0 + seq!['\n']);
    assert(l0 + seq!['\n'] =~= "platformer-level 1\n"@);
    assert(l1 + seq!['\n'] =~= "next-id "@ + decimal(v.0 as nat) + "\n"@);
    assert(l2 + seq!['\n'] =~= "spawn "@ + shown(v.1.x) + " "@ + shown(v.1.y) + "\n"@);
    assert(joined(pre) =~= preamble_text(v, shown));
    lemma_joined_append(pre, v.2.map_values(platform_line_of(shown)));
    lemma_platforms_joined(v.2, shown);
}

proof fn lemma_names()
    ensures
        header_name() != next_id_name(),
        header_name() != spawn_name(),
        header_name() != platform_name(),
        next_id_name() != spawn_name(),
        next_id_name() != platform_name(),
        spawn_name() != platform_name(),
        is_field(header_name()),
        is_field(next_id_name()),
        is_field(spawn_name()),
        is_field(platform_name()),
        is_field("1"@),
        decimal(1) == "1"@,
{
    reveal_strlit("platformer-level");
    reveal_strlit("next-id");
    reveal_strlit("spawn");
    reveal_strlit("platform");
    reveal_strlit("1");
    assert(header_name().len() == 16);
    assert(next_id_name().len() == 7);
    assert(spawn_name().len() == 5);
    assert(platform_name().len() == 8);
    assert(decimal(1) =~= "1"@);
}

proof fn lemma_scan_preamble<C>(
    v: LevelView<C>,
    shown: spec_fn(C) -> Seq<char>,
    reader: spec_fn(Seq<char>) -> Result<C, CoordinateError>,
    judge: spec_fn(C, C) -> Extent,
)
    requires
        level_valid(v),
        shows_level(v, shown, reader),
    ensures
        scan_lines(written_lines(v, shown).take(3), reader, judge) == Ok::<ScanView<C>, ErrorView>(
            (true, Some((v.0, 2nat)), Some(v.1), Seq::empty()),
        ),
{
    let ls = written_lines(v, shown);
    lemma_names();
    lemma_decimal_reads_back(1, u32::MAX as nat);
    lemma_decimal_reads_back(v.0 as nat, u64::MAX as nat);
    let f0 = seq![header_name(), "1"@];
    let f1 = seq![next_id_name(), decimal(v.0 as nat)];
    let f2 = seq![spawn_name(), shown(v.1.x), shown(v.1.y)];
    lemma_fields_of_spaced(f0);
    lemma_fields_of_spaced(f1);
    lemma_fields_of_spaced(f2);
    assert(ls[0] == spaced(f0));
    assert(ls[1] == spaced(f1));
    assert(ls[2] == spaced(f2));
    assert(ls.take(1).drop_last() =~= ls.take(0));
    assert(ls.take(2).drop_last() =~= ls.take(1));
    assert(ls.take(3).drop_last() =~= ls.take(2));
    let s0: ScanView<C> = (false, None, None, Seq::empty());
    let s1: ScanView<C> = (true, None, None, Seq::empty());
    let s2: ScanView<C> = (true, Some((v.0, 2nat)), None, Seq::empty());
    assert(scan_lines(ls.take(0), reader, judge) == Ok::<ScanView<C>, ErrorView>(s0));
    assert(header_step(s0, 1, f0) == Ok::<ScanView<C>, ErrorView>(s1));
    assert(scan_lines(ls.take(1), reader, judge) == Ok::<ScanView<C>, ErrorView>(s1));
    assert(next_id_step(s1, 2, f1) == Ok::<ScanView<C>, ErrorView>(s2));
    assert(scan_lines(ls.take(2), reader, judge) == Ok::<ScanView<C>, ErrorView>(s2));
    assert(spawn_step(s2, 3, f2, reader) == Ok::<ScanView<C>, ErrorView>(
        (true, Some((v.0, 2nat)), Some(SpawnPoint { x: v.1.x, y: v.1.y }), Seq::empty()),
    ));
}

proof fn lemma_scan_written<C>(
    v: LevelView<C>,
    shown: spec_fn(C) -> Seq<char>,
    reader: spec_fn(Seq<char>) -> Result<C, CoordinateError>,
    judge: spec_fn(C, C) -> Extent,
    k: int,
)
    requires
        level_valid(v),
        sides_valid(v.2, judge),
        shows_level(v, shown, reader),
        0 <= k <= v.2.len(),
    ensures
        scan_lines(written_lines(v, shown).take(3 + k), reader, judge) == Ok::<ScanView<C>, ErrorView>(
            (true, Some((v.0, 2nat)), Some(v.1), v.2.take(k)),
        ),
    decreases k,
{
    if k == 0 {
        lemma_scan_preamble(v, shown, reader, judge);
        assert(v.2.take(0) =~= Seq::<Platform<C>>::empty());
    } else {
        lemma_scan_written(v, shown, reader, judge, k - 1);
        let ls = written_lines(v, shown);
        let p = v.2[k - 1];
        let f = platform_fields(p, shown);
        let before: ScanView<C> = (true, Some((v.0, 2nat)), Some(v.1), v.2.take(k - 1));
        lemma_names();
        lemma_decimal_reads_back(p.id as nat, u64::MAX as nat);
        assert(shows_platform(shown, reader, v.2[k - 1]));
        assert forall|i: int| 0 <= i < f.len() implies is_field(#[trigger] f[i]) by {}
        lemma_fields_of_spaced(f);
        assert(ls.take(3 + k).drop_last() =~= ls.take(3 + k - 1));
        assert(ls.take(3 + k).last() == ls[2 + k]);
        assert(ls[2 + k] == spaced(f));
        assert(p.id > 0);
        assert(!has_id(before.3, p.id)) by {
            if has_id(before.3, p.id) {
                let i = choose|i: int| 0 <= i < before.3.len() && #[trigger] before.3[i].id == p.id;
                assert(v.2[i].id < v.2[k - 1].id);
            }
        }
        assert(judge(v.2[k - 1].x, v.2[k - 1].width) == Extent::Valid);
        let q = Platform { id: p.id as nat as u64, x: p.x, y: p.y, width: p.width, height: p.height };
        assert(q == p);
        if k > 1 {
            assert(before.3.last().id < p.id);
        }
        assert(insert_sorted(before.3, p) == before.3.push(p));
        assert(before.3.push(p) =~= v.2.take(k));
        assert(platform_checks(before, (3 + k) as nat, f[0], q, judge) == Ok::<ScanView<C>, ErrorView>(
            (true, Some((v.0, 2nat)), Some(v.1), v.2.take(k)),
        ));
        assert(platform_step(before, (3 + k) as nat, f, reader, judge) == Ok::<ScanView<C>, ErrorView>(
            (true, Some((v.0, 2nat)), Some(v.1), v.2.take(k)),
        ));
    }
}

/// Writing a level and parsing the text back gives the same level, when
/// every coordinate of it is written as one field that reads back as
/// itself and the judge accepts every platform side.
pub proof fn law_written_level_parses_back<C>(
    v: LevelView<C>,
    shown: spec_fn(C) -> Seq<char>,
    reader: spec_fn(Seq<char>) -> Result<C, CoordinateError>,
    judge: spec_fn(C, C) -> Extent,
)
    requires
        level_valid(v),
        sides_valid(v.2, judge),
        shows_level(v, shown, reader),
    ensures
        parse_spec(written(v, shown), reader, judge) == Ok::<LevelView<C>, ErrorView>(v),
{
    lemma_written_joined(v, shown);
    let ls = written_lines(v, shown);
    lemma_names();
    lemma_decimal_reads_back(v.0 as nat, u64::MAX as nat);
    assert forall|i: int, j: int| 0 <= i < ls.len() && 0 <= j < ls[i].len() implies #[trigger] ls[i][j]
        != '\n' by {
        if i == 0 {
            lemma_spaced_one_line(seq![header_name(), "1"@]);
        } else if i == 1 {
            lemma_spaced_one_line(seq![next_id_name(), decimal(v.0 as nat)]);
        } else if i == 2 {
            lemma_spaced_one_line(seq![spawn_name(), shown(v.1.x), shown(v.1.y)]);
        } else {
            let p = v.2[i - 3];
            let f = platform_fields(p, shown);
            assert(shows_platform(shown, reader, v.2[i - 3]));
            lemma_decimal_reads_back(p.id as nat, u64::MAX as nat);
            assert forall|m: int| 0 <= m < f.len() implies is_field(#[trigger] f[m]) by {}
            lemma_spaced_one_line(f);
            assert(ls[i] == spaced(f));
        }
    }
    lemma_lines_of_joined(ls);
    lemma_scan_written(v, shown, reader, judge, v.2.len() as int);
    assert(ls.take(3 + v.2.len() as int) =~= ls);
    assert(v.2.take(v.2.len() as int) =~= v.2);
    if v.2.len() > 0 {
        assert(v.2.last().id < v.0);
    }
}

/// A level parsed from a document, written with coordinates that read back
/// as themselves, parses to the same level again.
pub proof fn law_parsed_level_survives_writing<C>(
    text: Seq<char>,
    shown: spec_fn(C) -> Seq<char>,
    reader: spec_fn(Seq<char>) -> Result<C, CoordinateError>,
    judge: spec_fn(C, C) -> Extent,
)
    requires
        parse_spec(text, reader, judge) is Ok,
        shows_level(parse_spec(text, reader, judge)->Ok_0, shown, reader),
    ensures
        parse_spec(written(parse_spec(text, reader, judge)->Ok_0, shown), reader, judge) == parse_spec(
            text,
            reader,
            judge,
        ),
{
    law_parsed_level_is_valid(text, reader, judge);
    law_written_level_parses_back(parse_spec(text, reader, judge)->Ok_0, shown, reader, judge);
}

} // verus!
