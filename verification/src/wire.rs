//! The binary record of a pipeline: one tagged, length-prefixed frame for each
//! transform, in list order. The layout is that of a protocol-buffers message
//! with one repeated field, so that transform kinds can be added under new
//! tags without touching the records of the old ones.
//!
//! Writing is canonical: a field worth zero is left out, fields stand in
//! ascending order and every integer takes its shortest form, so that a
//! pipeline has one record and one token. Reading is more lenient where that
//! costs nothing: the fields of a transform may come in any order, and one
//! that is worth zero may be written out. Everything else is refused: a
//! record that is cut short, a tag or a field that is not known, a field
//! given twice, a number that does not fit or that is not in its shortest
//! form, and a code that names no value of its enumeration.

use crate::pb::{Filter, ResizeMode, SampleFilter, Spec};
use crate::varint::{
    lemma_parse_varint, lemma_varint_u32_len, parse_varint, put_varint, take_varint, varint,
};
use vstd::prelude::*;

verus! {

/// The key byte in front of every frame of a pipeline.
pub const FRAME_KEY: u8 = 0x0A;

/// The tag of a resize.
pub const TAG_RESIZE: u8 = 0x0A;

/// The tag of a crop.
pub const TAG_CROP: u8 = 0x12;

/// The tag of a colour filter.
pub const TAG_FILTER: u8 = 0x32;

/// The tag of a watermark.
pub const TAG_WATERMARK: u8 = 0x3A;

/// The most bytes that the four fields of one transform take.
pub const MAX_BODY: u8 = 24;

/// The four integer fields of a transform; those it does not use are zero.
pub type Slots = (u32, u32, u32, u32);

pub open spec fn resize_mode_code(t: ResizeMode) -> u32 {
    match t {
        ResizeMode::Normal => 0,
        ResizeMode::SeamCarve => 1,
    }
}

pub open spec fn resize_mode_of(code: u32) -> Option<ResizeMode> {
    if code == 0 {
        Some(ResizeMode::Normal)
    } else if code == 1 {
        Some(ResizeMode::SeamCarve)
    } else {
        None
    }
}

pub open spec fn sample_filter_code(f: SampleFilter) -> u32 {
    match f {
        SampleFilter::Undefined => 0,
        SampleFilter::Nearest => 1,
        SampleFilter::Triangle => 2,
        SampleFilter::CatmullRom => 3,
        SampleFilter::Gaussian => 4,
        SampleFilter::Lanczos3 => 5,
    }
}

pub open spec fn sample_filter_of(code: u32) -> Option<SampleFilter> {
    if code == 0 {
        Some(SampleFilter::Undefined)
    } else if code == 1 {
        Some(SampleFilter::Nearest)
    } else if code == 2 {
        Some(SampleFilter::Triangle)
    } else if code == 3 {
        Some(SampleFilter::CatmullRom)
    } else if code == 4 {
        Some(SampleFilter::Gaussian)
    } else if code == 5 {
        Some(SampleFilter::Lanczos3)
    } else {
        None
    }
}

pub open spec fn filter_code(f: Filter) -> u32 {
    match f {
        Filter::Unspecified => 0,
        Filter::Oceanic => 1,
        Filter::Islands => 2,
        Filter::Marine => 3,
    }
}

pub open spec fn filter_of(code: u32) -> Option<Filter> {
    if code == 0 {
        Some(Filter::Unspecified)
    } else if code == 1 {
        Some(Filter::Oceanic)
    } else if code == 2 {
        Some(Filter::Islands)
    } else if code == 3 {
        Some(Filter::Marine)
    } else {
        None
    }
}

/// The tag under which a transform is framed.
pub open spec fn tag_of(s: Spec) -> u8 {
    match s {
        Spec::Resize { .. } => TAG_RESIZE,
        Spec::Crop { .. } => TAG_CROP,
        Spec::ColorFilter { .. } => TAG_FILTER,
        Spec::Watermark { .. } => TAG_WATERMARK,
    }
}

/// The fields of a transform, in the order of their numbers.
pub open spec fn slots_of(s: Spec) -> Slots {
    match s {
        Spec::Resize { width, height, mode, filter } => (
            width,
            height,
            resize_mode_code(mode),
            sample_filter_code(filter),
        ),
        Spec::Crop { x0, y0, x1, y1 } => (x0, y0, x1, y1),
        Spec::ColorFilter { kind } => (filter_code(kind), 0, 0, 0),
        Spec::Watermark { x, y } => (x, y, 0, 0),
    }
}

/// The transform with tag `tag` and fields `slots`; none where the tag is
/// unknown, an enumeration's code is out of range, or a field that the
/// transform does not have is set.
pub open spec fn spec_from(tag: u8, slots: Slots) -> Option<Spec> {
    if tag == TAG_RESIZE {
        match (resize_mode_of(slots.2), sample_filter_of(slots.3)) {
            (Some(mode), Some(filter)) => Some(
                Spec::Resize { width: slots.0, height: slots.1, mode, filter },
            ),
            _ => None,
        }
    } else if tag == TAG_CROP {
        Some(Spec::Crop { x0: slots.0, y0: slots.1, x1: slots.2, y1: slots.3 })
    } else if tag == TAG_FILTER {
        match filter_of(slots.0) {
            Some(kind) => if slots.1 == 0 && slots.2 == 0 && slots.3 == 0 {
                Some(Spec::ColorFilter { kind })
            } else {
                None
            },
            None => None,
        }
    } else if tag == TAG_WATERMARK {
        if slots.2 == 0 && slots.3 == 0 {
            Some(Spec::Watermark { x: slots.0, y: slots.1 })
        } else {
            None
        }
    } else {
        None
    }
}

/// The key byte of the field in slot `slot`, counted from zero.
pub open spec fn key_of(slot: nat) -> u8 {
    (8 * (slot + 1)) as u8
}

/// One field: its key and its value, or nothing for a value of zero.
pub open spec fn field(slot: nat, v: u32) -> Seq<u8> {
    if v == 0 {
        Seq::empty()
    } else {
        seq![key_of(slot)] + varint(v as nat)
    }
}

/// The four fields of a transform, in ascending order.
pub open spec fn fields(s: Slots) -> Seq<u8> {
    field(0, s.0) + field(1, s.1) + field(2, s.2) + field(3, s.3)
}

/// The frame of one transform: the frame key, the length of what follows, the
/// tag, the length of the fields, the fields.
pub open spec fn frame(s: Spec) -> Seq<u8> {
    let body = fields(slots_of(s));
    seq![FRAME_KEY, (body.len() + 2) as u8, tag_of(s), body.len() as u8] + body
}

/// The record of a pipeline: the frames of its transforms, in list order.
pub open spec fn wire(p: Seq<Spec>) -> Seq<u8>
    decreases p.len(),
{
    if p.len() == 0 {
        Seq::empty()
    } else {
        frame(p[0]) + wire(p.skip(1))
    }
}

/// The field at place `i` of four.
pub open spec fn at(s: Slots, i: nat) -> u32 {
    if i == 0 {
        s.0
    } else if i == 1 {
        s.1
    } else if i == 2 {
        s.2
    } else {
        s.3
    }
}

/// The slot that a key byte names, if it names one.
pub open spec fn slot_of(key: u8) -> Option<nat> {
    if key == 8 {
        Some(0nat)
    } else if key == 16 {
        Some(1nat)
    } else if key == 24 {
        Some(2nat)
    } else if key == 32 {
        Some(3nat)
    } else {
        None
    }
}

/// Fields as far as they were read: none for a slot that was not given.
pub type Partial = Seq<Option<u32>>;

/// The four fields that `partial` stands for: zero for a slot not given.
pub open spec fn filled(partial: Partial) -> Slots {
    (or_zero(partial[0]), or_zero(partial[1]), or_zero(partial[2]), or_zero(partial[3]))
}

/// The value given, or zero.
pub open spec fn or_zero(v: Option<u32>) -> u32 {
    match v {
        Some(v) => v,
        None => 0,
    }
}

/// The four fields that `b` adds up to, on top of those read before: `b` is
/// a run of fields, each a key that names a slot not given yet and a value
/// that fits 32 bits, in any order.
pub open spec fn parse_fields_from(b: Seq<u8>, partial: Partial) -> Option<Slots>
    decreases b.len(),
{
    if b.len() == 0 {
        Some(filled(partial))
    } else {
        match slot_of(b[0]) {
            Some(slot) => if partial[slot as int] is Some {
                None
            } else {
                match parse_varint(b.skip(1)) {
                    Some((v, n)) => if v <= u32::MAX && 0 < n < b.len() {
                        parse_fields_from(
                            b.skip(1 + n as int),
                            partial.update(slot as int, Some(v as u32)),
                        )
                    } else {
                        None
                    },
                    None => None,
                }
            },
            None => None,
        }
    }
}

/// No field read yet.
pub open spec fn nothing() -> Partial {
    seq![None, None, None, None]
}

/// The four fields that make up the whole of `b`.
pub open spec fn parse_fields(b: Seq<u8>) -> Option<Slots> {
    parse_fields_from(b, nothing())
}

/// The transform whose frame `b` starts with, and the length of that frame.
pub open spec fn parse_frame(b: Seq<u8>) -> Option<(Spec, nat)> {
    if b.len() >= 4 && b[0] == FRAME_KEY && b[3] <= MAX_BODY && b[1] == b[3] + 2 && b.len() >= 4
        + b[3] {
        match parse_fields(b.subrange(4, 4 + b[3])) {
            Some(slots) => match spec_from(b[2], slots) {
                Some(s) => Some((s, (4 + b[3]) as nat)),
                None => None,
            },
            None => None,
        }
    } else {
        None
    }
}

/// The pipeline whose record is `b`, if `b` is the record of one.
pub open spec fn parse(b: Seq<u8>) -> Option<Seq<Spec>>
    decreases b.len(),
{
    if b.len() == 0 {
        Some(Seq::empty())
    } else {
        match parse_frame(b) {
            Some((s, n)) => if 0 < n <= b.len() {
                match parse(b.skip(n as int)) {
                    Some(rest) => Some(seq![s] + rest),
                    None => None,
                }
            } else {
                None
            },
            None => None,
        }
    }
}

/// A field takes at most six bytes; it is empty exactly for the value zero and
/// starts with its key otherwise.
pub proof fn lemma_field_shape(slot: nat, v: u32)
    requires
        slot < 4,
    ensures
        field(slot, v).len() <= 6,
        v == 0 <==> field(slot, v).len() == 0,
        v != 0 ==> field(slot, v)[0] == key_of(slot),
{
    lemma_varint_u32_len(v as nat);
}

/// The fields of `s` from slot `from` on, as they are written.
pub open spec fn fields_from(s: Slots, from: nat) -> Seq<u8>
    decreases 4 - from,
{
    if from >= 4 {
        Seq::empty()
    } else {
        field(from, at(s, from)) + fields_from(s, from + 1)
    }
}

/// The fields read before with those of `s` from slot `from` on laid over
/// them, as far as they are written, that is, not zero.
pub open spec fn laid_over(partial: Partial, s: Slots, from: nat) -> Partial {
    Seq::new(
        4,
        |i: int|
            if i >= from && at(s, i as nat) != 0 {
                Some(at(s, i as nat))
            } else {
                partial[i]
            },
    )
}

/// Parsing reads the fields from slot `from` on back, on top of what was read
/// before of the slots in front of it.
proof fn lemma_parse_fields_from(s: Slots, from: nat, partial: Partial)
    requires
        from <= 4,
        partial.len() == 4,
        forall|i: int| from <= i < 4 ==> partial[i] is None,
    ensures
        parse_fields_from(fields_from(s, from), partial) == Some(
            filled(laid_over(partial, s, from)),
        ),
    decreases 4 - from,
{
    if from >= 4 {
        assert(laid_over(partial, s, from) =~= partial);
    } else {
        let v = at(s, from);
        let rest = fields_from(s, from + 1);
        let b = fields_from(s, from);
        if v == 0 {
            assert(b =~= rest);
            lemma_parse_fields_from(s, from + 1, partial);
            assert(laid_over(partial, s, from) =~= laid_over(partial, s, from + 1));
        } else {
            let next = partial.update(from as int, Some(v));
            lemma_parse_varint(v as nat, rest);
            lemma_varint_u32_len(v as nat);
            assert(b[0] == key_of(from));
            assert(slot_of(b[0]) == Some(from));
            assert(b.skip(1) =~= varint(v as nat) + rest);
            assert(b.skip(1 + varint(v as nat).len() as int) =~= rest);
            lemma_parse_fields_from(s, from + 1, next);
            assert(laid_over(partial, s, from) =~= laid_over(next, s, from + 1));
        }
    }
}

/// Parsing reads back the four fields of a transform as they are written.
pub proof fn lemma_parse_fields(s: Slots)
    ensures
        parse_fields(fields(s)) == Some(s),
        fields(s).len() <= MAX_BODY,
{
    lemma_field_shape(0, s.0);
    lemma_field_shape(1, s.1);
    lemma_field_shape(2, s.2);
    lemma_field_shape(3, s.3);
    reveal_with_fuel(fields_from, 5);
    assert(fields(s) =~= fields_from(s, 0));
    lemma_parse_fields_from(s, 0, nothing());
}

/// A transform is the one that its tag and fields stand for.
pub proof fn lemma_spec_from(s: Spec)
    ensures
        spec_from(tag_of(s), slots_of(s)) == Some(s),
{
}

/// Parsing reads back a frame that is followed by anything.
pub proof fn lemma_parse_frame(s: Spec, rest: Seq<u8>)
    ensures
        parse_frame(frame(s) + rest) == Some((s, frame(s).len())),
        4 <= frame(s).len() <= 4 + MAX_BODY,
{
    let body = fields(slots_of(s));
    lemma_parse_fields(slots_of(s));
    lemma_spec_from(s);
    let b = frame(s) + rest;
    assert(b[0] == FRAME_KEY);
    assert(b[1] == (body.len() + 2) as u8);
    assert(b[2] == tag_of(s));
    assert(b[3] == body.len() as u8);
    assert(b.subrange(4, 4 + b[3]) =~= body);
}

/// Round trip: parsing the record of a pipeline gives the pipeline back.
pub proof fn lemma_parse_wire(p: Seq<Spec>)
    ensures
        parse(wire(p)) == Some(p),
    decreases p.len(),
{
    if p.len() > 0 {
        let rest = wire(p.skip(1));
        lemma_parse_frame(p[0], rest);
        lemma_parse_wire(p.skip(1));
        let b = wire(p);
        assert(b.skip(frame(p[0]).len() as int) =~= rest);
        assert(seq![p[0]] + p.skip(1) =~= p);
    }
}

/// Two pipelines with one record are one pipeline: order and every field count.
pub proof fn lemma_wire_injective(p: Seq<Spec>, q: Seq<Spec>)
    requires
        wire(p) == wire(q),
    ensures
        p == q,
{
    lemma_parse_wire(p);
    lemma_parse_wire(q);
}

/// The record of a pipeline with one more transform at its end.
pub proof fn lemma_wire_push(p: Seq<Spec>, s: Spec)
    ensures
        wire(p.push(s)) == wire(p) + frame(s),
    decreases p.len(),
{
    if p.len() == 0 {
        assert(p.push(s).skip(1) =~= Seq::<Spec>::empty());
        assert(wire(p.push(s)) =~= frame(s) + wire(Seq::<Spec>::empty()));
        assert(wire(p.push(s)) =~= wire(p) + frame(s));
    } else {
        lemma_wire_push(p.skip(1), s);
        assert(p.push(s).skip(1) =~= p.skip(1).push(s));
        assert(wire(p.push(s)) =~= wire(p) + frame(s));
    }
}

/// The wire code of a resize mode.
pub fn resize_mode_to_code(mode: ResizeMode) -> (code: u32)
    ensures
        code == resize_mode_code(mode),
{
    match mode {
        ResizeMode::Normal => 0,
        ResizeMode::SeamCarve => 1,
    }
}

/// The resize mode with wire code `code`; none for a code out of range.
pub fn resize_mode_from_code(code: u32) -> (mode: Option<ResizeMode>)
    ensures
        mode == resize_mode_of(code),
{
    if code == 0 {
        Some(ResizeMode::Normal)
    } else if code == 1 {
        Some(ResizeMode::SeamCarve)
    } else {
        None
    }
}

/// The wire code of a sampling filter.
pub fn sample_filter_to_code(filter: SampleFilter) -> (code: u32)
    ensures
        code == sample_filter_code(filter),
{
    match filter {
        SampleFilter::Undefined => 0,
        SampleFilter::Nearest => 1,
        SampleFilter::Triangle => 2,
        SampleFilter::CatmullRom => 3,
        SampleFilter::Gaussian => 4,
        SampleFilter::Lanczos3 => 5,
    }
}

/// The sampling filter with wire code `code`; none for a code out of range.
pub fn sample_filter_from_code(code: u32) -> (filter: Option<SampleFilter>)
    ensures
        filter == sample_filter_of(code),
{
    if code == 0 {
        Some(SampleFilter::Undefined)
    } else if code == 1 {
        Some(SampleFilter::Nearest)
    } else if code == 2 {
        Some(SampleFilter::Triangle)
    } else if code == 3 {
        Some(SampleFilter::CatmullRom)
    } else if code == 4 {
        Some(SampleFilter::Gaussian)
    } else if code == 5 {
        Some(SampleFilter::Lanczos3)
    } else {
        None
    }
}

/// The wire code of a colour filter.
pub fn filter_to_code(kind: Filter) -> (code: u32)
    ensures
        code == filter_code(kind),
{
    match kind {
        Filter::Unspecified => 0,
        Filter::Oceanic => 1,
        Filter::Islands => 2,
        Filter::Marine => 3,
    }
}

/// The colour filter with wire code `code`; none for a code out of range.
pub fn filter_from_code(code: u32) -> (kind: Option<Filter>)
    ensures
        kind == filter_of(code),
{
    if code == 0 {
        Some(Filter::Unspecified)
    } else if code == 1 {
        Some(Filter::Oceanic)
    } else if code == 2 {
        Some(Filter::Islands)
    } else if code == 3 {
        Some(Filter::Marine)
    } else {
        None
    }
}

/// The tag and the four fields of a transform.
fn take_apart(s: &Spec) -> (r: (u8, Slots))
    ensures
        r.0 == tag_of(*s),
        r.1 == slots_of(*s),
{
    match *s {
        Spec::Resize { width, height, mode, filter } => (
            TAG_RESIZE,
            (width, height, resize_mode_to_code(mode), sample_filter_to_code(filter)),
        ),
        Spec::Crop { x0, y0, x1, y1 } => (TAG_CROP, (x0, y0, x1, y1)),
        Spec::ColorFilter { kind } => (TAG_FILTER, (filter_to_code(kind), 0, 0, 0)),
        Spec::Watermark { x, y } => (TAG_WATERMARK, (x, y, 0, 0)),
    }
}

/// The transform that a tag and four fields stand for.
fn put_together(tag: u8, slots: Slots) -> (r: Option<Spec>)
    ensures
        r == spec_from(tag, slots),
{
    if tag == TAG_RESIZE {
        match (resize_mode_from_code(slots.2), sample_filter_from_code(slots.3)) {
            (Some(mode), Some(filter)) => Some(
                Spec::Resize { width: slots.0, height: slots.1, mode, filter },
            ),
            _ => None,
        }
    } else if tag == TAG_CROP {
        Some(Spec::Crop { x0: slots.0, y0: slots.1, x1: slots.2, y1: slots.3 })
    } else if tag == TAG_FILTER {
        match filter_from_code(slots.0) {
            Some(kind) => if slots.1 == 0 && slots.2 == 0 && slots.3 == 0 {
                Some(Spec::ColorFilter { kind })
            } else {
                None
            },
            None => None,
        }
    } else if tag == TAG_WATERMARK {
        if slots.2 == 0 && slots.3 == 0 {
            Some(Spec::Watermark { x: slots.0, y: slots.1 })
        } else {
            None
        }
    } else {
        None
    }
}

/// Appends the field in slot `slot` with value `v`.
fn put_field(out: &mut Vec<u8>, slot: u8, v: u32)
    requires
        slot < 4,
    ensures
        final(out)@ == old(out)@ + field(slot as nat, v),
{
    if v != 0 {
        out.push(8 * (slot + 1));
        put_varint(out, v);
        proof {
            assert(out@ =~= old(out)@ + field(slot as nat, v));
        }
    } else {
        proof {
            assert(out@ =~= old(out)@ + field(slot as nat, v));
        }
    }
}

/// Appends the frame of `s`.
fn put_frame(out: &mut Vec<u8>, s: &Spec)
    ensures
        final(out)@ == old(out)@ + frame(*s),
{
    let (tag, slots) = take_apart(s);
    let mut body: Vec<u8> = Vec::new();
    put_field(&mut body, 0, slots.0);
    put_field(&mut body, 1, slots.1);
    put_field(&mut body, 2, slots.2);
    put_field(&mut body, 3, slots.3);
    proof {
        lemma_parse_fields(slots);
        assert(body@ =~= fields(slots));
    }
    let n: usize = body.len();
    out.push(FRAME_KEY);
    out.push((n + 2) as u8);
    out.push(tag);
    out.push(n as u8);
    out.append(&mut body);
    proof {
        assert(out@ =~= old(out)@ + frame(*s));
    }
}

/// The record of the pipeline `specs`.
pub fn encode_record(specs: &Vec<Spec>) -> (out: Vec<u8>)
    ensures
        out@ == wire(specs@),
{
    let mut out: Vec<u8> = Vec::new();
    let mut i: usize = 0;
    while i < specs.len()
        invariant
            i <= specs.len(),
            out@ == wire(specs@.take(i as int)),
        decreases specs.len() - i,
    {
        proof {
            lemma_wire_push(specs@.take(i as int), specs@[i as int]);
            assert(specs@.take(i as int).push(specs@[i as int]) =~= specs@.take(i + 1));
        }
        put_frame(&mut out, &specs[i]);
        i = i + 1;
    }
    proof {
        assert(specs@.take(i as int) =~= specs@);
    }
    out
}

/// The slot that a key byte names, if it names one.
fn slot_from_key(key: u8) -> (slot: Option<usize>)
    ensures
        match slot {
            Some(i) => slot_of(key) == Some(i as nat) && i < 4,
            None => slot_of(key) is None,
        },
{
    if key == 8 {
        Some(0)
    } else if key == 16 {
        Some(1)
    } else if key == 24 {
        Some(2)
    } else if key == 32 {
        Some(3)
    } else {
        None
    }
}

/// The value given, or zero.
fn value_or_zero(v: Option<u32>) -> (r: u32)
    ensures
        r == or_zero(v),
{
    match v {
        Some(v) => v,
        None => 0,
    }
}

/// Reads the four fields that make up the whole of `b`.
fn take_fields(b: &[u8]) -> (r: Option<Slots>)
    ensures
        r == parse_fields(b@),
{
    let mut partial: Vec<Option<u32>> = Vec::new();
    partial.push(None);
    partial.push(None);
    partial.push(None);
    partial.push(None);
    let mut at: usize = 0;
    proof {
        assert(b@.skip(0) =~= b@);
        assert(partial@ =~= nothing());
    }
    while at < b.len()
        invariant
            at <= b.len(),
            partial@.len() == 4,
            parse_fields(b@) == parse_fields_from(b@.skip(at as int), partial@),
        decreases b.len() - at,
    {
        let ghost tail = b@.skip(at as int);
        proof {
            assert(tail[0] == b@[at as int]);
            assert(tail.skip(1) =~= b@.skip(at + 1));
        }
        let slot = match slot_from_key(b[at]) {
            Some(slot) => slot,
            None => {
                return None;
            },
        };
        if partial[slot].is_some() {
            return None;
        }
        match take_varint(b, at + 1) {
            Some((v, next)) => {
                proof {
                    assert(tail.skip(1 + (next - (at + 1))) =~= b@.skip(next as int));
                }
                partial.set(slot, Some(v));
                at = next;
            },
            None => {
                return None;
            },
        }
    }
    proof {
        assert(b@.skip(at as int) =~= Seq::<u8>::empty());
    }
    Some(
        (
            value_or_zero(partial[0]),
            value_or_zero(partial[1]),
            value_or_zero(partial[2]),
            value_or_zero(partial[3]),
        ),
    )
}

/// Reads the frame that starts at `at`: its transform and the index just
/// behind it.
fn take_frame(b: &[u8], at: usize) -> (r: Option<(Spec, usize)>)
    requires
        at <= b.len(),
    ensures
        match r {
            Some((s, next)) => at < next <= b.len() && parse_frame(b@.skip(at as int)) == Some(
                (s, (next - at) as nat),
            ),
            None => parse_frame(b@.skip(at as int)) is None,
        },
{
    let ghost tail = b@.skip(at as int);
    if b.len() - at < 4 {
        return None;
    }
    proof {
        assert(tail[0] == b@[at as int]);
        assert(tail[1] == b@[at + 1]);
        assert(tail[2] == b@[at + 2]);
        assert(tail[3] == b@[at + 3]);
    }
    let n: u8 = b[at + 3];
    if b[at] != FRAME_KEY || n > MAX_BODY || b[at + 1] != n + 2 {
        return None;
    }
    if b.len() - at - 4 < n as usize {
        return None;
    }
    let start: usize = at + 4;
    let end: usize = start + n as usize;
    let body = &b[start..end];
    proof {
        assert(body@ =~= tail.subrange(4, 4 + n));
    }
    match take_fields(body) {
        Some(slots) => match put_together(b[at + 2], slots) {
            Some(s) => Some((s, end)),
            None => None,
        },
        None => None,
    }
}

/// The pipeline that the record `b` stands for; none where `b` is no
/// pipeline's record. What `wire` wrote for a pipeline reads back as that
/// pipeline.
pub fn decode_record(b: &[u8]) -> (r: Option<Vec<Spec>>)
    ensures
        match r {
            Some(specs) => parse(b@) == Some(specs@),
            None => parse(b@) is None,
        },
        forall|p: Seq<Spec>| #[trigger] wire(p) == b@ ==> (r matches Some(specs) && specs@ == p),
{
    let mut specs: Vec<Spec> = Vec::new();
    let mut at: usize = 0;
    proof {
        assert(b@.skip(0) =~= b@);
        assert(specs@ + parse(b@)->Some_0 =~= parse(b@)->Some_0);
    }
    while at < b.len()
        invariant
            at <= b.len(),
            parse(b@) == match parse(b@.skip(at as int)) {
                Some(rest) => Some(specs@ + rest),
                None => None,
            },
        decreases b.len() - at,
    {
        let ghost tail = b@.skip(at as int);
        match take_frame(b, at) {
            Some((s, next)) => {
                proof {
                    assert(tail.skip(next - at) =~= b@.skip(next as int));
                    if parse(b@.skip(next as int)) is Some {
                        let rest = parse(b@.skip(next as int))->Some_0;
                        assert(specs@ + (seq![s] + rest) =~= specs@.push(s) + rest);
                    }
                }
                specs.push(s);
                at = next;
            },
            None => {
                proof {
                    assert(parse(b@) is None);
                    assert forall|p: Seq<Spec>| #[trigger] wire(p) != b@ by {
                        lemma_parse_wire(p);
                    }
                }
                return None;
            },
        }
    }
    proof {
        assert(b@.skip(at as int) =~= Seq::<u8>::empty());
        assert(specs@ + Seq::<Spec>::empty() =~= specs@);
        assert forall|p: Seq<Spec>| #[trigger] wire(p) == b@ implies specs@ == p by {
            lemma_parse_wire(p);
        }
    }
    Some(specs)
}

} // verus!
