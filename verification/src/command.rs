//! Kitty graphics protocol control data parser.
//!
//! Parses the APC data bytes (after 'G', before ST) into structured commands.
//! Format: `key=value,key=value,...;payload`

use vstd::prelude::*;
use vstd::utf8::{decode_utf8, valid_utf8};

use crate::encoding::{decimal_text, push_all, push_decimal_text};
use crate::integer::{
    int_error_message, int_error_text, parse_i32_chars, parse_u32_chars, spec_parse_i32,
    spec_parse_u32,
};
use crate::text::{chars_of, find_byte, find_char, first_index, lemma_first_index, push_chars, str_from_utf8, utf8_error_text};

verus! {

/// The action a command asks for (`a=`).
#[derive(Debug, Clone, Copy, PartialEq, Eq, Structural)]
pub enum KittyAction {
    TransmitAndDisplay,
    Transmit,
    Place,
    Query,
    Delete,
    Frame,
    Animate,
}

/// Pixel format of transmitted data (`f=`).
#[derive(Debug, Clone, Copy, PartialEq, Eq, Structural)]
pub enum ImageFormat {
    Rgba,
    Rgb,
    Png,
}

/// How image data is transmitted (`t=`).
#[derive(Debug, Clone, Copy, PartialEq, Eq, Structural)]
pub enum TransmissionMedium {
    Direct,
    File,
    TempFile,
    SharedMem,
}

/// Compression of transmitted data (`o=`).
#[derive(Debug, Clone, Copy, PartialEq, Eq, Structural)]
pub enum Compression {
    Uncompressed,
    Zlib,
}

impl Default for Compression {
    fn default() -> (r: Self)
        ensures
            r == Compression::Uncompressed,
    {
        Compression::Uncompressed
    }
}

/// What a delete command removes (`d=`).
#[derive(Debug, Clone, Copy, PartialEq, Eq, Structural)]
pub enum DeleteTarget {
    All,
    ById,
    ByPlacement,
    AtCursor,
    InRange,
    ByZIndex,
}

/// A parsed graphics command: its control keys and its payload.
#[derive(Debug, Clone)]
pub struct KittyCommand {
    pub action: Option<KittyAction>,
    pub format: Option<ImageFormat>,
    pub transmission: Option<TransmissionMedium>,
    pub image_id: Option<u32>,
    pub placement_id: Option<u32>,
    pub more_chunks: bool,
    pub compression: Compression,
    pub source_x: Option<u32>,
    pub source_y: Option<u32>,
    pub source_width: Option<u32>,
    pub source_height: Option<u32>,
    pub pixel_offset_x: Option<u32>,
    pub pixel_offset_y: Option<u32>,
    pub columns: Option<u32>,
    pub rows: Option<u32>,
    pub unicode_placeholder: bool,
    pub quiet: u8,
    pub delete_target: Option<DeleteTarget>,
    pub z_index: Option<i32>,
    pub pixel_width: Option<u32>,
    pub pixel_height: Option<u32>,
    pub payload: Vec<u8>,
}

/// Mathematical value of a command.
pub struct CommandView {
    pub action: Option<KittyAction>,
    pub format: Option<ImageFormat>,
    pub transmission: Option<TransmissionMedium>,
    pub image_id: Option<u32>,
    pub placement_id: Option<u32>,
    pub more_chunks: bool,
    pub compression: Compression,
    pub source_x: Option<u32>,
    pub source_y: Option<u32>,
    pub source_width: Option<u32>,
    pub source_height: Option<u32>,
    pub pixel_offset_x: Option<u32>,
    pub pixel_offset_y: Option<u32>,
    pub columns: Option<u32>,
    pub rows: Option<u32>,
    pub unicode_placeholder: bool,
    pub quiet: u8,
    pub delete_target: Option<DeleteTarget>,
    pub z_index: Option<i32>,
    pub pixel_width: Option<u32>,
    pub pixel_height: Option<u32>,
    pub payload: Seq<u8>,
}

impl View for KittyCommand {
    type V = CommandView;

    open spec fn view(&self) -> CommandView {
        CommandView {
            action: self.action,
            format: self.format,
            transmission: self.transmission,
            image_id: self.image_id,
            placement_id: self.placement_id,
            more_chunks: self.more_chunks,
            compression: self.compression,
            source_x: self.source_x,
            source_y: self.source_y,
            source_width: self.source_width,
            source_height: self.source_height,
            pixel_offset_x: self.pixel_offset_x,
            pixel_offset_y: self.pixel_offset_y,
            columns: self.columns,
            rows: self.rows,
            unicode_placeholder: self.unicode_placeholder,
            quiet: self.quiet,
            delete_target: self.delete_target,
            z_index: self.z_index,
            pixel_width: self.pixel_width,
            pixel_height: self.pixel_height,
            payload: self.payload@,
        }
    }
}

impl CommandView {
    /// A command with no control keys set and the given payload.
    pub open spec fn defaults(payload: Seq<u8>) -> CommandView {
        CommandView {
            action: None,
            format: None,
            transmission: None,
            image_id: None,
            placement_id: None,
            more_chunks: false,
            compression: Compression::Uncompressed,
            source_x: None,
            source_y: None,
            source_width: None,
            source_height: None,
            pixel_offset_x: None,
            pixel_offset_y: None,
            columns: None,
            rows: None,
            unicode_placeholder: false,
            quiet: 0,
            delete_target: None,
            z_index: None,
            pixel_width: None,
            pixel_height: None,
            payload,
        }
    }
}

impl Default for KittyCommand {
    fn default() -> (r: Self)
        ensures
            r@ == CommandView::defaults(Seq::empty()),
    {
        KittyCommand {
            action: None,
            format: None,
            transmission: None,
            image_id: None,
            placement_id: None,
            more_chunks: false,
            compression: Compression::Uncompressed,
            source_x: None,
            source_y: None,
            source_width: None,
            source_height: None,
            pixel_offset_x: None,
            pixel_offset_y: None,
            columns: None,
            rows: None,
            unicode_placeholder: false,
            quiet: 0,
            delete_target: None,
            z_index: None,
            pixel_width: None,
            pixel_height: None,
            payload: Vec::new(),
        }
    }
}

impl KittyCommand {
    /// A copy of the command, every key and the payload alike.
    pub fn duplicate(&self) -> (r: Self)
        ensures
            r@ == self@,
    {
        KittyCommand {
            action: self.action,
            format: self.format,
            transmission: self.transmission,
            image_id: self.image_id,
            placement_id: self.placement_id,
            more_chunks: self.more_chunks,
            compression: self.compression,
            source_x: self.source_x,
            source_y: self.source_y,
            source_width: self.source_width,
            source_height: self.source_height,
            pixel_offset_x: self.pixel_offset_x,
            pixel_offset_y: self.pixel_offset_y,
            columns: self.columns,
            rows: self.rows,
            unicode_placeholder: self.unicode_placeholder,
            quiet: self.quiet,
            delete_target: self.delete_target,
            z_index: self.z_index,
            pixel_width: self.pixel_width,
            pixel_height: self.pixel_height,
            payload: vstd::slice::slice_to_vec(self.payload.as_slice()),
        }
    }
}

/// A one-character value.
pub open spec fn is1(v: Seq<char>, a: char) -> bool {
    v.len() == 1 && v[0] == a
}

/// A two-character value.
pub open spec fn is2(v: Seq<char>, a: char, b: char) -> bool {
    v.len() == 2 && v[0] == a && v[1] == b
}

/// A three-character value.
pub open spec fn is3(v: Seq<char>, a: char, b: char, c: char) -> bool {
    v.len() == 3 && v[0] == a && v[1] == b && v[2] == c
}

/// The action an `a=` value names.
pub open spec fn action_of(v: Seq<char>) -> Option<KittyAction> {
    if is1(v, 'T') {
        Some(KittyAction::TransmitAndDisplay)
    } else if is1(v, 't') {
        Some(KittyAction::Transmit)
    } else if is1(v, 'p') {
        Some(KittyAction::Place)
    } else if is1(v, 'q') {
        Some(KittyAction::Query)
    } else if is1(v, 'd') {
        Some(KittyAction::Delete)
    } else if is1(v, 'f') {
        Some(KittyAction::Frame)
    } else if is1(v, 'a') {
        Some(KittyAction::Animate)
    } else {
        None
    }
}

/// The format an `f=` value names.
pub open spec fn format_of(v: Seq<char>) -> Option<ImageFormat> {
    if is2(v, '3', '2') {
        Some(ImageFormat::Rgba)
    } else if is2(v, '2', '4') {
        Some(ImageFormat::Rgb)
    } else if is3(v, '1', '0', '0') {
        Some(ImageFormat::Png)
    } else {
        None
    }
}

/// The medium a `t=` value names.
pub open spec fn medium_of(v: Seq<char>) -> Option<TransmissionMedium> {
    if is1(v, 'd') {
        Some(TransmissionMedium::Direct)
    } else if is1(v, 'f') {
        Some(TransmissionMedium::File)
    } else if is1(v, 't') {
        Some(TransmissionMedium::TempFile)
    } else if is1(v, 's') {
        Some(TransmissionMedium::SharedMem)
    } else {
        None
    }
}

/// The delete target a `d=` value names (upper case only).
pub open spec fn target_of(v: Seq<char>) -> Option<DeleteTarget> {
    if is1(v, 'A') {
        Some(DeleteTarget::All)
    } else if is1(v, 'I') {
        Some(DeleteTarget::ById)
    } else if is1(v, 'P') {
        Some(DeleteTarget::ByPlacement)
    } else if is1(v, 'C') {
        Some(DeleteTarget::AtCursor)
    } else if is1(v, 'R') {
        Some(DeleteTarget::InRange)
    } else if is1(v, 'Z') {
        Some(DeleteTarget::ByZIndex)
    } else {
        None
    }
}

/// `prefix` followed by the quoted value and a closing quote.
pub open spec fn quoted(prefix: Seq<char>, value: Seq<char>) -> Seq<char> {
    prefix + value + "'"@
}

/// The message for a numeric field whose value does not parse.
pub open spec fn field_error(field: Seq<char>, value: Seq<char>, msg: Seq<char>) -> Seq<char> {
    "invalid "@ + field + " value '"@ + value + "': "@ + msg
}

/// A `u32` field value, or the message for it.
pub open spec fn u32_field(value: Seq<char>, field: Seq<char>) -> Result<u32, Seq<char>> {
    match spec_parse_u32(value) {
        Ok(v) => Ok(v),
        Err(k) => Err(field_error(field, value, int_error_text(k))),
    }
}

/// The command after one `key=value` pair with a single-character key.
pub open spec fn spec_apply(cmd: CommandView, key: char, value: Seq<char>) -> Result<
    CommandView,
    Seq<char>,
> {
    if key == 'a' {
        match action_of(value) {
            Some(a) => Ok(CommandView { action: Some(a), ..cmd }),
            None => Err(quoted("unknown action value: '"@, value)),
        }
    } else if key == 'f' {
        match format_of(value) {
            Some(f) => Ok(CommandView { format: Some(f), ..cmd }),
            None => Err(quoted("unknown format value: '"@, value)),
        }
    } else if key == 't' {
        match medium_of(value) {
            Some(t) => Ok(CommandView { transmission: Some(t), ..cmd }),
            None => Err(quoted("unknown transmission value: '"@, value)),
        }
    } else if key == 'i' {
        match u32_field(value, "image_id"@) {
            Ok(v) => Ok(CommandView { image_id: Some(v), ..cmd }),
            Err(e) => Err(e),
        }
    } else if key == 'p' {
        match u32_field(value, "placement_id"@) {
            Ok(v) => Ok(CommandView { placement_id: Some(v), ..cmd }),
            Err(e) => Err(e),
        }
    } else if key == 'm' {
        if is1(value, '0') {
            Ok(CommandView { more_chunks: false, ..cmd })
        } else if is1(value, '1') {
            Ok(CommandView { more_chunks: true, ..cmd })
        } else {
            Err(quoted("invalid more_chunks value: '"@, value))
        }
    } else if key == 'o' {
        Ok(
            CommandView {
                compression: if is1(value, 'z') {
                    Compression::Zlib
                } else {
                    Compression::Uncompressed
                },
                ..cmd
            },
        )
    } else if key == 'x' {
        match u32_field(value, "source_x"@) {
            Ok(v) => Ok(CommandView { source_x: Some(v), ..cmd }),
            Err(e) => Err(e),
        }
    } else if key == 'y' {
        match u32_field(value, "source_y"@) {
            Ok(v) => Ok(CommandView { source_y: Some(v), ..cmd }),
            Err(e) => Err(e),
        }
    } else if key == 'w' {
        match u32_field(value, "source_width"@) {
            Ok(v) => Ok(CommandView { source_width: Some(v), ..cmd }),
            Err(e) => Err(e),
        }
    } else if key == 'h' {
        match u32_field(value, "source_height"@) {
            Ok(v) => Ok(CommandView { source_height: Some(v), ..cmd }),
            Err(e) => Err(e),
        }
    } else if key == 'X' {
        match u32_field(value, "pixel_offset_x"@) {
            Ok(v) => Ok(CommandView { pixel_offset_x: Some(v), ..cmd }),
            Err(e) => Err(e),
        }
    } else if key == 'Y' {
        match u32_field(value, "pixel_offset_y"@) {
            Ok(v) => Ok(CommandView { pixel_offset_y: Some(v), ..cmd }),
            Err(e) => Err(e),
        }
    } else if key == 'c' {
        match u32_field(value, "columns"@) {
            Ok(v) => Ok(CommandView { columns: Some(v), ..cmd }),
            Err(e) => Err(e),
        }
    } else if key == 'r' {
        match u32_field(value, "rows"@) {
            Ok(v) => Ok(CommandView { rows: Some(v), ..cmd }),
            Err(e) => Err(e),
        }
    } else if key == 'U' {
        Ok(CommandView { unicode_placeholder: is1(value, '1'), ..cmd })
    } else if key == 'q' {
        match u32_field(value, "quiet"@) {
            Ok(q) => if q > 2 {
                Err("quiet value out of range: "@ + decimal_text(q as nat))
            } else {
                Ok(CommandView { quiet: q as u8, ..cmd })
            },
            Err(e) => Err(e),
        }
    } else if key == 'd' {
        match target_of(value) {
            Some(d) => Ok(CommandView { delete_target: Some(d), ..cmd }),
            None => Err(quoted("unknown delete target: '"@, value)),
        }
    } else if key == 'z' {
        match spec_parse_i32(value) {
            Ok(z) => Ok(CommandView { z_index: Some(z), ..cmd }),
            Err(k) => Err("invalid z_index '"@ + value + "': "@ + int_error_text(k)),
        }
    } else if key == 's' {
        match u32_field(value, "pixel_width"@) {
            Ok(v) => Ok(CommandView { pixel_width: Some(v), ..cmd }),
            Err(e) => Err(e),
        }
    } else if key == 'v' {
        match u32_field(value, "pixel_height"@) {
            Ok(v) => Ok(CommandView { pixel_height: Some(v), ..cmd }),
            Err(e) => Err(e),
        }
    } else {
        Ok(cmd)
    }
}

/// The command after one comma-separated pair: empty pairs and keys that
/// are not a single byte long are skipped; a pair without `=` is an error.
pub open spec fn spec_apply_pair(cmd: CommandView, pair: Seq<char>) -> Result<
    CommandView,
    Seq<char>,
> {
    if pair.len() == 0 {
        Ok(cmd)
    } else {
        let eq = first_index(pair, '=');
        if eq < 0 {
            Err(quoted("malformed key=value pair: '"@, pair))
        } else {
            let key = pair.take(eq);
            let value = pair.skip(eq + 1);
            if key.len() == 1 && (key[0] as u32) < 0x80 {
                spec_apply(cmd, key[0], value)
            } else {
                Ok(cmd)
            }
        }
    }
}

/// The first index of `x` lies inside the sequence.
pub proof fn lemma_first_index_range<T>(s: Seq<T>, x: T)
    ensures
        -1 <= first_index(s, x) < s.len(),
        first_index(s, x) >= 0 ==> s[first_index(s, x)] == x,
    decreases s.len(),
{
    if s.len() > 0 && s[0] != x {
        lemma_first_index_range(s.drop_first(), x);
    }
}

/// The command after the comma-separated pairs of `rest`, left to right,
/// stopping at the first error.
pub open spec fn spec_parse_pairs(cmd: CommandView, rest: Seq<char>) -> Result<
    CommandView,
    Seq<char>,
>
    decreases rest.len(),
{
    let comma = first_index(rest, ',');
    let pair = if comma < 0 {
        rest
    } else {
        rest.take(comma)
    };
    match spec_apply_pair(cmd, pair) {
        Err(e) => Err(e),
        Ok(c) => if comma < 0 {
            Ok(c)
        } else {
            proof {
                lemma_first_index_range(rest, ',');
            }
            spec_parse_pairs(c, rest.skip(comma + 1))
        },
    }
}

/// The result of parsing APC data: control data up to the first `;`, the
/// payload after it (empty without a `;`).
pub open spec fn spec_parse(data: Seq<u8>) -> Result<CommandView, Seq<char>> {
    let semi = first_index(data, 0x3bu8);
    let control = if semi < 0 {
        data
    } else {
        data.take(semi)
    };
    let payload = if semi < 0 {
        Seq::empty()
    } else {
        data.skip(semi + 1)
    };
    let init = CommandView::defaults(payload);
    if control.len() == 0 {
        Ok(init)
    } else if !valid_utf8(control) {
        Err("invalid UTF-8 in control data: "@ + utf8_error_text(control))
    } else {
        spec_parse_pairs(init, decode_utf8(control))
    }
}

/// `prefix`, the characters `cs[lo..hi]`, then a closing quote.
fn quoted_message(prefix: &str, cs: &[char], lo: usize, hi: usize) -> (r: String)
    requires
        lo <= hi <= cs@.len(),
    ensures
        r@ == quoted(prefix@, cs@.subrange(lo as int, hi as int)),
{
    let mut m = String::from_str(prefix);
    push_chars(&mut m, cs, lo, hi);
    m.append("'");
    m
}

/// The message for a numeric field value that does not parse.
fn field_message(field: &str, cs: &[char], lo: usize, hi: usize, k: crate::integer::IntErrorKind) -> (r:
    String)
    requires
        lo <= hi <= cs@.len(),
    ensures
        r@ == field_error(field@, cs@.subrange(lo as int, hi as int), int_error_text(k)),
{
    let mut m = String::from_str("invalid ");
    m.append(field);
    m.append(" value '");
    push_chars(&mut m, cs, lo, hi);
    m.append("': ");
    let e = int_error_message(k);
    m.append(e.as_str());
    m
}

/// Parses a `u32` field value.
fn u32_field_exec(field: &str, cs: &[char], lo: usize, hi: usize) -> (r: Result<u32, String>)
    requires
        lo <= hi <= cs@.len(),
    ensures
        match (r, u32_field(cs@.subrange(lo as int, hi as int), field@)) {
            (Ok(a), Ok(b)) => a == b,
            (Err(a), Err(b)) => a@ == b,
            _ => false,
        },
{
    match parse_u32_chars(cs, lo, hi) {
        Ok(v) => Ok(v),
        Err(k) => Err(field_message(field, cs, lo, hi, k)),
    }
}

/// Whether `cs[lo..hi]` is the one character `a`.
fn is1_exec(cs: &[char], lo: usize, hi: usize, a: char) -> (r: bool)
    requires
        lo <= hi <= cs@.len(),
    ensures
        r == is1(cs@.subrange(lo as int, hi as int), a),
{
    hi - lo == 1 && cs[lo] == a
}

/// Whether `cs[lo..hi]` is the two characters `a`, `b`.
fn is2_exec(cs: &[char], lo: usize, hi: usize, a: char, b: char) -> (r: bool)
    requires
        lo <= hi <= cs@.len(),
    ensures
        r == is2(cs@.subrange(lo as int, hi as int), a, b),
{
    hi - lo == 2 && cs[lo] == a && cs[lo + 1] == b
}

/// Whether `cs[lo..hi]` is the three characters `a`, `b`, `c`.
fn is3_exec(cs: &[char], lo: usize, hi: usize, a: char, b: char, c: char) -> (r: bool)
    requires
        lo <= hi <= cs@.len(),
    ensures
        r == is3(cs@.subrange(lo as int, hi as int), a, b, c),
{
    hi - lo == 3 && cs[lo] == a && cs[lo + 1] == b && cs[lo + 2] == c
}

/// The action a value names, if any.
fn action_of_exec(cs: &[char], lo: usize, hi: usize) -> (r: Option<KittyAction>)
    requires
        lo <= hi <= cs@.len(),
    ensures
        r == action_of(cs@.subrange(lo as int, hi as int)),
{
    if is1_exec(cs, lo, hi, 'T') {
        Some(KittyAction::TransmitAndDisplay)
    } else if is1_exec(cs, lo, hi, 't') {
        Some(KittyAction::Transmit)
    } else if is1_exec(cs, lo, hi, 'p') {
        Some(KittyAction::Place)
    } else if is1_exec(cs, lo, hi, 'q') {
        Some(KittyAction::Query)
    } else if is1_exec(cs, lo, hi, 'd') {
        Some(KittyAction::Delete)
    } else if is1_exec(cs, lo, hi, 'f') {
        Some(KittyAction::Frame)
    } else if is1_exec(cs, lo, hi, 'a') {
        Some(KittyAction::Animate)
    } else {
        None
    }
}

/// The format a value names, if any.
fn format_of_exec(cs: &[char], lo: usize, hi: usize) -> (r: Option<ImageFormat>)
    requires
        lo <= hi <= cs@.len(),
    ensures
        r == format_of(cs@.subrange(lo as int, hi as int)),
{
    if is2_exec(cs, lo, hi, '3', '2') {
        Some(ImageFormat::Rgba)
    } else if is2_exec(cs, lo, hi, '2', '4') {
        Some(ImageFormat::Rgb)
    } else if is3_exec(cs, lo, hi, '1', '0', '0') {
        Some(ImageFormat::Png)
    } else {
        None
    }
}

/// The transmission medium a value names, if any.
fn medium_of_exec(cs: &[char], lo: usize, hi: usize) -> (r: Option<TransmissionMedium>)
    requires
        lo <= hi <= cs@.len(),
    ensures
        r == medium_of(cs@.subrange(lo as int, hi as int)),
{
    if is1_exec(cs, lo, hi, 'd') {
        Some(TransmissionMedium::Direct)
    } else if is1_exec(cs, lo, hi, 'f') {
        Some(TransmissionMedium::File)
    } else if is1_exec(cs, lo, hi, 't') {
        Some(TransmissionMedium::TempFile)
    } else if is1_exec(cs, lo, hi, 's') {
        Some(TransmissionMedium::SharedMem)
    } else {
        None
    }
}

/// The delete target a value names, if any.
fn target_of_exec(cs: &[char], lo: usize, hi: usize) -> (r: Option<DeleteTarget>)
    requires
        lo <= hi <= cs@.len(),
    ensures
        r == target_of(cs@.subrange(lo as int, hi as int)),
{
    if is1_exec(cs, lo, hi, 'A') {
        Some(DeleteTarget::All)
    } else if is1_exec(cs, lo, hi, 'I') {
        Some(DeleteTarget::ById)
    } else if is1_exec(cs, lo, hi, 'P') {
        Some(DeleteTarget::ByPlacement)
    } else if is1_exec(cs, lo, hi, 'C') {
        Some(DeleteTarget::AtCursor)
    } else if is1_exec(cs, lo, hi, 'R') {
        Some(DeleteTarget::InRange)
    } else if is1_exec(cs, lo, hi, 'Z') {
        Some(DeleteTarget::ByZIndex)
    } else {
        None
    }
}

impl KittyCommand {
    /// Parse from raw APC data bytes (everything after 'G', before the ST terminator).
    ///
    /// The format is: `key=value,key=value,...;payload`
    /// If no semicolon is present, all data is control data and payload is empty.
    pub fn parse(data: &[u8]) -> (r: Result<Self, String>)
        ensures
            match (r, spec_parse(data@)) {
                (Ok(c), Ok(v)) => c@ == v,
                (Err(m), Err(e)) => m@ == e,
                _ => false,
            },
    {
        let semi = find_byte(data, 0, 0x3b);
        assert(data@.skip(0) =~= data@);
        let mut payload: Vec<u8> = Vec::new();
        if semi < data.len() {
            push_all(&mut payload, &data[semi + 1..data.len()]);
            assert(payload@ =~= data@.skip(semi + 1));
        }
        let mut cmd = KittyCommand::default();
        cmd.payload = payload;
        let control = &data[0..semi];
        assert(control@ =~= (if semi == data.len() {
            data@
        } else {
            data@.take(semi as int)
        }));
        if semi == 0 {
            assert(cmd@ =~= CommandView::defaults(cmd.payload@));
            return Ok(cmd);
        }
        let text = match str_from_utf8(control) {
            Ok(s) => s,
            Err(e) => {
                let mut m = String::from_str("invalid UTF-8 in control data: ");
                m.append(e.as_str());
                return Err(m);
            },
        };
        let cs = chars_of(text);
        let ghost init = cmd@;
        let mut pos: usize = 0;
        assert(cs@.skip(0) =~= cs@);
        assert(init == CommandView::defaults(if semi == data.len() {
            Seq::empty()
        } else {
            data@.skip(semi + 1)
        }));
        assert(spec_parse(data@) == spec_parse_pairs(init, cs@));
        loop
            invariant
                pos <= cs@.len(),
                spec_parse(data@) == spec_parse_pairs(init, cs@),
                spec_parse_pairs(init, cs@) == spec_parse_pairs(cmd@, cs@.skip(pos as int)),
            decreases cs@.len() - pos,
        {
            let comma = find_char(&cs, pos, cs.len(), ',');
            let ghost rest = cs@.skip(pos as int);
            assert(cs@.subrange(pos as int, cs@.len() as int) =~= rest);
            assert(comma < cs.len() ==> rest.take(comma - pos) =~= cs@.subrange(
                pos as int,
                comma as int,
            ));
            assert(comma == cs.len() ==> rest =~= cs@.subrange(pos as int, comma as int));
            match Self::apply_pair(&mut cmd, &cs, pos, comma) {
                Ok(()) => {},
                Err(e) => {
                    return Err(e);
                },
            }
            if comma == cs.len() {
                return Ok(cmd);
            }
            assert(rest.skip(comma - pos + 1) =~= cs@.skip(comma + 1));
            pos = comma + 1;
        }
    }

    /// Apply one comma-separated pair `cs[lo..hi]` to the command.
    fn apply_pair(cmd: &mut KittyCommand, cs: &[char], lo: usize, hi: usize) -> (r: Result<
        (),
        String,
    >)
        requires
            lo <= hi <= cs@.len(),
        ensures
            match (r, spec_apply_pair(old(cmd)@, cs@.subrange(lo as int, hi as int))) {
                (Ok(()), Ok(v)) => final(cmd)@ == v,
                (Err(m), Err(e)) => m@ == e,
                _ => false,
            },
            r is Err ==> final(cmd)@ == old(cmd)@,
    {
        let ghost pair = cs@.subrange(lo as int, hi as int);
        if lo == hi {
            return Ok(());
        }
        let eq = find_char(cs, lo, hi, '=');
        if eq == hi {
            return Err(quoted_message("malformed key=value pair: '", cs, lo, hi));
        }
        assert(pair.take(eq - lo) =~= cs@.subrange(lo as int, eq as int));
        assert(pair.skip(eq - lo + 1) =~= cs@.subrange(eq + 1, hi as int));
        if eq - lo != 1 {
            return Ok(());
        }
        let key = cs[lo];
        if (key as u32) >= 0x80 {
            return Ok(());
        }
        Self::apply_key_value(cmd, key, cs, eq + 1, hi)
    }

    /// Apply `key=cs[lo..hi]` to the command.
    fn apply_key_value(cmd: &mut KittyCommand, key: char, cs: &[char], lo: usize, hi: usize) -> (r:
        Result<(), String>)
        requires
            lo <= hi <= cs@.len(),
        ensures
            match (r, spec_apply(old(cmd)@, key, cs@.subrange(lo as int, hi as int))) {
                (Ok(()), Ok(v)) => final(cmd)@ == v,
                (Err(m), Err(e)) => m@ == e,
                _ => false,
            },
            r is Err ==> final(cmd)@ == old(cmd)@,
    {
        if key == 'a' {
            match action_of_exec(cs, lo, hi) {
                Some(a) => {
                    cmd.action = Some(a);
                },
                None => {
                    return Err(quoted_message("unknown action value: '", cs, lo, hi));
                },
            }
        } else if key == 'f' {
            match format_of_exec(cs, lo, hi) {
                Some(f) => {
                    cmd.format = Some(f);
                },
                None => {
                    return Err(quoted_message("unknown format value: '", cs, lo, hi));
                },
            }
        } else if key == 't' {
            match medium_of_exec(cs, lo, hi) {
                Some(t) => {
                    cmd.transmission = Some(t);
                },
                None => {
                    return Err(quoted_message("unknown transmission value: '", cs, lo, hi));
                },
            }
        } else if key == 'i' {
            let v = u32_field_exec("image_id", cs, lo, hi)?;
            cmd.image_id = Some(v);
        } else if key == 'p' {
            let v = u32_field_exec("placement_id", cs, lo, hi)?;
            cmd.placement_id = Some(v);
        } else if key == 'm' {
            if is1_exec(cs, lo, hi, '0') {
                cmd.more_chunks = false;
            } else if is1_exec(cs, lo, hi, '1') {
                cmd.more_chunks = true;
            } else {
                return Err(quoted_message("invalid more_chunks value: '", cs, lo, hi));
            }
        } else if key == 'o' {
            cmd.compression = if is1_exec(cs, lo, hi, 'z') {
                Compression::Zlib
            } else {
                Compression::Uncompressed
            };
        } else if key == 'x' {
            let v = u32_field_exec("source_x", cs, lo, hi)?;
            cmd.source_x = Some(v);
        } else if key == 'y' {
            let v = u32_field_exec("source_y", cs, lo, hi)?;
            cmd.source_y = Some(v);
        } else if key == 'w' {
            let v = u32_field_exec("source_width", cs, lo, hi)?;
            cmd.source_width = Some(v);
        } else if key == 'h' {
            let v = u32_field_exec("source_height", cs, lo, hi)?;
            cmd.source_height = Some(v);
        } else if key == 'X' {
            let v = u32_field_exec("pixel_offset_x", cs, lo, hi)?;
            cmd.pixel_offset_x = Some(v);
        } else if key == 'Y' {
            let v = u32_field_exec("pixel_offset_y", cs, lo, hi)?;
            cmd.pixel_offset_y = Some(v);
        } else if key == 'c' {
            let v = u32_field_exec("columns", cs, lo, hi)?;
            cmd.columns = Some(v);
        } else if key == 'r' {
            let v = u32_field_exec("rows", cs, lo, hi)?;
            cmd.rows = Some(v);
        } else if key == 'U' {
            cmd.unicode_placeholder = is1_exec(cs, lo, hi, '1');
        } else if key == 'q' {
            let q = u32_field_exec("quiet", cs, lo, hi)?;
            if q > 2 {
                let mut m = String::from_str("quiet value out of range: ");
                push_decimal_text(&mut m, q as u64);
                return Err(m);
            }
            cmd.quiet = q as u8;
        } else if key == 'd' {
            match target_of_exec(cs, lo, hi) {
                Some(d) => {
                    cmd.delete_target = Some(d);
                },
                None => {
                    return Err(quoted_message("unknown delete target: '", cs, lo, hi));
                },
            }
        } else if key == 'z' {
            match parse_i32_chars(cs, lo, hi) {
                Ok(z) => {
                    cmd.z_index = Some(z);
                },
                Err(k) => {
                    let mut m = String::from_str("invalid z_index '");
                    push_chars(&mut m, cs, lo, hi);
                    m.append("': ");
                    let e = int_error_message(k);
                    m.append(e.as_str());
                    return Err(m);
                },
            }
        } else if key == 's' {
            let v = u32_field_exec("pixel_width", cs, lo, hi)?;
            cmd.pixel_width = Some(v);
        } else if key == 'v' {
            let v = u32_field_exec("pixel_height", cs, lo, hi)?;
            cmd.pixel_height = Some(v);
        }
        Ok(())
    }
}

/// Each numeric key writes the one field the protocol names for it, and
/// every other field keeps its value: `i` the image id, `p` the placement
/// id, `x`, `y`, `w`, `h` the source rectangle, `X`, `Y` the pixel offset,
/// `c`, `r` the cell size, `s`, `v` the pixel size. A value that is not a
/// `u32` is refused, whichever of these keys it is given to.
pub proof fn lemma_numeric_keys(cmd: CommandView, value: Seq<char>)
    ensures
        spec_parse_u32(value) matches Ok(n) ==> {
            &&& spec_apply(cmd, 'i', value) == Ok::<CommandView, Seq<char>>(CommandView { image_id: Some(n), ..cmd })
            &&& spec_apply(cmd, 'p', value) == Ok::<CommandView, Seq<char>>(CommandView { placement_id: Some(n), ..cmd })
            &&& spec_apply(cmd, 'x', value) == Ok::<CommandView, Seq<char>>(CommandView { source_x: Some(n), ..cmd })
            &&& spec_apply(cmd, 'y', value) == Ok::<CommandView, Seq<char>>(CommandView { source_y: Some(n), ..cmd })
            &&& spec_apply(cmd, 'w', value) == Ok::<CommandView, Seq<char>>(CommandView { source_width: Some(n), ..cmd })
            &&& spec_apply(cmd, 'h', value) == Ok::<CommandView, Seq<char>>(CommandView { source_height: Some(n), ..cmd })
            &&& spec_apply(cmd, 'X', value) == Ok::<CommandView, Seq<char>>(CommandView { pixel_offset_x: Some(n), ..cmd })
            &&& spec_apply(cmd, 'Y', value) == Ok::<CommandView, Seq<char>>(CommandView { pixel_offset_y: Some(n), ..cmd })
            &&& spec_apply(cmd, 'c', value) == Ok::<CommandView, Seq<char>>(CommandView { columns: Some(n), ..cmd })
            &&& spec_apply(cmd, 'r', value) == Ok::<CommandView, Seq<char>>(CommandView { rows: Some(n), ..cmd })
            &&& spec_apply(cmd, 's', value) == Ok::<CommandView, Seq<char>>(CommandView { pixel_width: Some(n), ..cmd })
            &&& spec_apply(cmd, 'v', value) == Ok::<CommandView, Seq<char>>(CommandView { pixel_height: Some(n), ..cmd })
        },
        spec_parse_u32(value) is Err ==> {
            &&& spec_apply(cmd, 'i', value) is Err
            &&& spec_apply(cmd, 'p', value) is Err
            &&& spec_apply(cmd, 'x', value) is Err
            &&& spec_apply(cmd, 'y', value) is Err
            &&& spec_apply(cmd, 'w', value) is Err
            &&& spec_apply(cmd, 'h', value) is Err
            &&& spec_apply(cmd, 'X', value) is Err
            &&& spec_apply(cmd, 'Y', value) is Err
            &&& spec_apply(cmd, 'c', value) is Err
            &&& spec_apply(cmd, 'r', value) is Err
            &&& spec_apply(cmd, 's', value) is Err
            &&& spec_apply(cmd, 'v', value) is Err
        },
{
}

/// The keys with a named value write their own field from the protocol's
/// table and leave every other field as it was: `a=` the action
/// (`T t p q d f a`), `f=` the format (`32 24 100`), `t=` the medium
/// (`d f t s`), `d=` the delete target (`A I P C R Z`); any other value is
/// refused. `m=` takes only `0` or `1`; `o=z` asks for zlib and any other
/// value for none; `U=1` asks for placeholders and any other value not;
/// `q=` takes 0 to 2; `z=` takes an `i32`. A key the protocol does not use
/// changes nothing.
pub proof fn lemma_named_keys(cmd: CommandView, value: Seq<char>, key: char)
    ensures
        spec_apply(cmd, 'a', seq!['T']) == Ok::<CommandView, Seq<char>>(CommandView { action: Some(KittyAction::TransmitAndDisplay), ..cmd }),
        spec_apply(cmd, 'a', seq!['t']) == Ok::<CommandView, Seq<char>>(CommandView { action: Some(KittyAction::Transmit), ..cmd }),
        spec_apply(cmd, 'a', seq!['p']) == Ok::<CommandView, Seq<char>>(CommandView { action: Some(KittyAction::Place), ..cmd }),
        spec_apply(cmd, 'a', seq!['q']) == Ok::<CommandView, Seq<char>>(CommandView { action: Some(KittyAction::Query), ..cmd }),
        spec_apply(cmd, 'a', seq!['d']) == Ok::<CommandView, Seq<char>>(CommandView { action: Some(KittyAction::Delete), ..cmd }),
        spec_apply(cmd, 'a', seq!['f']) == Ok::<CommandView, Seq<char>>(CommandView { action: Some(KittyAction::Frame), ..cmd }),
        spec_apply(cmd, 'a', seq!['a']) == Ok::<CommandView, Seq<char>>(CommandView { action: Some(KittyAction::Animate), ..cmd }),
        spec_apply(cmd, 'a', value) is Ok ==> value.len() == 1 && (value[0] == 'T' || value[0] == 't' || value[0] == 'p' || value[0] == 'q' || value[0] == 'd' || value[0] == 'f' || value[0] == 'a'),
        spec_apply(cmd, 'f', seq!['3', '2']) == Ok::<CommandView, Seq<char>>(CommandView { format: Some(ImageFormat::Rgba), ..cmd }),
        spec_apply(cmd, 'f', seq!['2', '4']) == Ok::<CommandView, Seq<char>>(CommandView { format: Some(ImageFormat::Rgb), ..cmd }),
        spec_apply(cmd, 'f', seq!['1', '0', '0']) == Ok::<CommandView, Seq<char>>(CommandView { format: Some(ImageFormat::Png), ..cmd }),
        spec_apply(cmd, 'f', value) is Ok ==> is2(value, '3', '2') || is2(value, '2', '4') || is3(value, '1', '0', '0'),
        spec_apply(cmd, 't', seq!['d']) == Ok::<CommandView, Seq<char>>(CommandView { transmission: Some(TransmissionMedium::Direct), ..cmd }),
        spec_apply(cmd, 't', seq!['f']) == Ok::<CommandView, Seq<char>>(CommandView { transmission: Some(TransmissionMedium::File), ..cmd }),
        spec_apply(cmd, 't', seq!['t']) == Ok::<CommandView, Seq<char>>(CommandView { transmission: Some(TransmissionMedium::TempFile), ..cmd }),
        spec_apply(cmd, 't', seq!['s']) == Ok::<CommandView, Seq<char>>(CommandView { transmission: Some(TransmissionMedium::SharedMem), ..cmd }),
        spec_apply(cmd, 't', value) is Ok ==> value.len() == 1 && (value[0] == 'd' || value[0] == 'f' || value[0] == 't' || value[0] == 's'),
        spec_apply(cmd, 'd', seq!['A']) == Ok::<CommandView, Seq<char>>(CommandView { delete_target: Some(DeleteTarget::All), ..cmd }),
        spec_apply(cmd, 'd', seq!['I']) == Ok::<CommandView, Seq<char>>(CommandView { delete_target: Some(DeleteTarget::ById), ..cmd }),
        spec_apply(cmd, 'd', seq!['P']) == Ok::<CommandView, Seq<char>>(CommandView { delete_target: Some(DeleteTarget::ByPlacement), ..cmd }),
        spec_apply(cmd, 'd', seq!['C']) == Ok::<CommandView, Seq<char>>(CommandView { delete_target: Some(DeleteTarget::AtCursor), ..cmd }),
        spec_apply(cmd, 'd', seq!['R']) == Ok::<CommandView, Seq<char>>(CommandView { delete_target: Some(DeleteTarget::InRange), ..cmd }),
        spec_apply(cmd, 'd', seq!['Z']) == Ok::<CommandView, Seq<char>>(CommandView { delete_target: Some(DeleteTarget::ByZIndex), ..cmd }),
        spec_apply(cmd, 'd', value) is Ok ==> value.len() == 1 && (value[0] == 'A' || value[0] == 'I' || value[0] == 'P' || value[0] == 'C' || value[0] == 'R' || value[0] == 'Z'),
        spec_apply(cmd, 'm', seq!['0']) == Ok::<CommandView, Seq<char>>(CommandView { more_chunks: false, ..cmd }),
        spec_apply(cmd, 'm', seq!['1']) == Ok::<CommandView, Seq<char>>(CommandView { more_chunks: true, ..cmd }),
        spec_apply(cmd, 'm', value) is Ok ==> value.len() == 1 && (value[0] == '0' || value[0] == '1'),
        spec_apply(cmd, 'o', value) == Ok::<CommandView, Seq<char>>(CommandView {
            compression: if value.len() == 1 && value[0] == 'z' { Compression::Zlib } else { Compression::Uncompressed },
            ..cmd
        }),
        spec_apply(cmd, 'U', value) == Ok::<CommandView, Seq<char>>(CommandView { unicode_placeholder: value.len() == 1 && value[0] == '1', ..cmd }),
        spec_parse_u32(value) matches Ok(n) ==> (n <= 2 ==> spec_apply(cmd, 'q', value) == Ok::<CommandView, Seq<char>>(CommandView { quiet: n as u8, ..cmd })),
        spec_apply(cmd, 'q', value) is Ok ==> (spec_parse_u32(value) matches Ok(n) && n <= 2),
        spec_parse_i32(value) matches Ok(z) ==> spec_apply(cmd, 'z', value) == Ok::<CommandView, Seq<char>>(CommandView { z_index: Some(z), ..cmd }),
        spec_parse_i32(value) is Err ==> spec_apply(cmd, 'z', value) is Err,
        !(key == 'a' || key == 'f' || key == 't' || key == 'i' || key == 'p' || key == 'm' || key == 'o'
            || key == 'x' || key == 'y' || key == 'w' || key == 'h' || key == 'X' || key == 'Y' || key == 'c'
            || key == 'r' || key == 'U' || key == 'q' || key == 'd' || key == 'z' || key == 's' || key == 'v')
            ==> spec_apply(cmd, key, value) == Ok::<CommandView, Seq<char>>(cmd),
{
}

/// Pairs are applied left to right: control data without a comma is one
/// pair; otherwise the first pair is applied and, unless it is refused,
/// the rest follows on the command it produced.
pub proof fn lemma_pairs_in_order(cmd: CommandView, pair: Seq<char>, more: Seq<char>)
    requires
        !pair.contains(','),
    ensures
        spec_parse_pairs(cmd, pair) == spec_apply_pair(cmd, pair),
        spec_parse_pairs(cmd, pair + seq![','] + more) == match spec_apply_pair(cmd, pair) {
            Err(e) => Err(e),
            Ok(c) => spec_parse_pairs(c, more),
        },
{
    lemma_first_index(pair, ',', pair.len() as int);
    let rest = pair + seq![','] + more;
    assert forall|j: int| 0 <= j < pair.len() implies rest[j] != ',' by {
        assert(rest[j] == pair[j]);
    }
    lemma_first_index(rest, ',', pair.len() as int);
    assert(rest.take(pair.len() as int) =~= pair);
    assert(rest.skip(pair.len() as int + 1) =~= more);
}

/// A pair `k=value` whose key is one ASCII character other than `=` applies
/// that key to the whole value; a non-empty pair without `=` is refused;
/// an empty pair changes nothing.
pub proof fn lemma_pair_applies_key(cmd: CommandView, key: char, value: Seq<char>, pair: Seq<char>)
    requires
        key != '=',
        (key as u32) < 0x80,
    ensures
        spec_apply_pair(cmd, seq![key, '='] + value) == spec_apply(cmd, key, value),
        pair.len() > 0 && !pair.contains('=') ==> spec_apply_pair(cmd, pair) is Err,
        spec_apply_pair(cmd, Seq::empty()) == Ok::<CommandView, Seq<char>>(cmd),
{
    let p = seq![key, '='] + value;
    lemma_first_index(p, '=', 1);
    assert(p.take(1) =~= seq![key]);
    assert(p.skip(2) =~= value);
    if pair.len() > 0 && !pair.contains('=') {
        assert forall|j: int| 0 <= j < pair.len() implies pair[j] != '=' by {
            if pair[j] == '=' {
                assert(pair.contains('='));
            }
        }
        lemma_first_index(pair, '=', pair.len() as int);
    }
}

/// A parse result with its command's payload replaced by `payload`.
pub open spec fn carrying(r: Result<CommandView, Seq<char>>, payload: Seq<u8>) -> Result<CommandView, Seq<char>> {
    match r {
        Ok(c) => Ok(CommandView { payload, ..c }),
        Err(e) => Err(e),
    }
}

/// No key touches the payload: applying a key to a command with another
/// payload gives the same outcome with that payload.
pub proof fn lemma_apply_ignores_payload(cmd: CommandView, key: char, value: Seq<char>, payload: Seq<u8>)
    ensures
        spec_apply(CommandView { payload, ..cmd }, key, value) == carrying(spec_apply(cmd, key, value), payload),
{
}

/// No run of pairs touches the payload.
pub proof fn lemma_pairs_ignore_payload(cmd: CommandView, rest: Seq<char>, payload: Seq<u8>)
    ensures
        spec_parse_pairs(CommandView { payload, ..cmd }, rest) == carrying(spec_parse_pairs(cmd, rest), payload),
    decreases rest.len(),
{
    let comma = first_index(rest, ',');
    let pair = if comma < 0 {
        rest
    } else {
        rest.take(comma)
    };
    if pair.len() > 0 {
        let eq = first_index(pair, '=');
        if eq >= 0 {
            let key = pair.take(eq);
            if key.len() == 1 && (key[0] as u32) < 0x80 {
                lemma_apply_ignores_payload(cmd, key[0], pair.skip(eq + 1), payload);
            }
        }
    }
    match spec_apply_pair(cmd, pair) {
        Err(_) => {},
        Ok(c) => if comma >= 0 {
            lemma_first_index_range(rest, ',');
            lemma_pairs_ignore_payload(c, rest.skip(comma + 1), payload);
        },
    }
}

/// The payload is everything after the first `;`, byte for byte, and the
/// control data before it alone decides whether and how the command
/// parses: data with a `;` parses as its control data alone would, with
/// the bytes after the `;` as payload; data without one has an empty
/// payload.
pub proof fn lemma_payload_after_semicolon(control: Seq<u8>, payload: Seq<u8>)
    requires
        !control.contains(0x3bu8),
    ensures
        spec_parse(control + seq![0x3bu8] + payload) == carrying(spec_parse(control), payload),
        spec_parse(control) matches Ok(c) ==> c.payload.len() == 0,
{
    let data = control + seq![0x3bu8] + payload;
    assert forall|j: int| 0 <= j < control.len() implies data[j] != 0x3bu8 by {
        assert(data[j] == control[j]);
    }
    lemma_first_index(data, 0x3bu8, control.len() as int);
    assert forall|j: int| 0 <= j < control.len() implies control[j] != 0x3bu8 by {
        if control[j] == 0x3bu8 {
            assert(control.contains(0x3bu8));
        }
    }
    lemma_first_index(control, 0x3bu8, control.len() as int);
    assert(data.take(control.len() as int) =~= control);
    assert(data.skip(control.len() as int + 1) =~= payload);
    let init = CommandView::defaults(Seq::empty());
    assert(CommandView::defaults(payload) == CommandView { payload, ..init });
    if control.len() > 0 && valid_utf8(control) {
        lemma_pairs_ignore_payload(init, decode_utf8(control), payload);
        lemma_pairs_ignore_payload(init, decode_utf8(control), Seq::empty());
        assert(CommandView { payload: Seq::empty(), ..init } == init);
    }
}

} // verus!
