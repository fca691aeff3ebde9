//! Decoding of `sensor_msgs/PointCloud2` payloads into per-field columns.
//!
//! Each field of the cloud is read at `point_step * i + offset` for every
//! `i < row_step`, as one value of the field's datatype. Multi-byte values are
//! read in little-endian byte order; floating-point values are handed out as
//! their IEEE-754 bit patterns.
use vstd::prelude::*;
use cdr::Error as CdrError;
use crate::messages::{cdr_point_cloud, decode_point_cloud, Stamp};
use crate::payload::{serialized, spec_serialized};
use crate::text::str_eq;

verus! {

pub const INT8: u8 = 1;
pub const UINT8: u8 = 2;
pub const INT16: u8 = 3;
pub const UINT16: u8 = 4;
pub const INT32: u8 = 5;
pub const UINT32: u8 = 6;
pub const FLOAT32: u8 = 7;
pub const FLOAT64: u8 = 8;

/// One field of a point cloud's point layout.
pub struct PointField {
    pub name: String,
    pub offset: u32,
    pub datatype: u8,
    pub count: u32,
}

/// The parts of a `PointCloud2` message that decoding reads.
pub struct PointCloud {
    pub stamp: Stamp,
    pub height: u32,
    pub width: u32,
    pub fields: Vec<PointField>,
    pub point_step: u32,
    pub row_step: u32,
    pub data: Vec<u8>,
}

pub struct PointFieldView {
    pub name: Seq<char>,
    pub offset: u32,
    pub datatype: u8,
    pub count: u32,
}

pub struct PointCloudView {
    pub stamp: Stamp,
    pub height: u32,
    pub width: u32,
    pub fields: Seq<PointFieldView>,
    pub point_step: u32,
    pub row_step: u32,
    pub data: Seq<u8>,
}

impl View for PointField {
    type V = PointFieldView;

    open spec fn view(&self) -> PointFieldView {
        PointFieldView { name: self.name@, offset: self.offset, datatype: self.datatype, count: self.count }
    }
}

impl View for PointCloud {
    type V = PointCloudView;

    open spec fn view(&self) -> PointCloudView {
        PointCloudView {
            stamp: self.stamp,
            height: self.height,
            width: self.width,
            fields: self.fields@.map_values(|f: PointField| f@),
            point_step: self.point_step,
            row_step: self.row_step,
            data: self.data@,
        }
    }
}

/// One decoded value; floating-point values are kept as their bit patterns.
#[derive(Clone, Copy, Debug, PartialEq, Eq, Structural)]
pub enum FieldValue {
    I8(i8),
    U8(u8),
    I16(i16),
    U16(u16),
    I32(i32),
    U32(u32),
    F32Bits(u32),
    F64Bits(u64),
}

/// The values of one field, one per point.
pub struct DecodedField {
    pub name: String,
    pub values: Vec<FieldValue>,
}

/// Whether `dt` is one of the eight datatypes of `PointField`.
pub open spec fn valid_datatype(dt: u8) -> bool {
    1 <= dt <= 8
}

/// Size in bytes of one value of datatype `dt`.
pub open spec fn datatype_size(dt: u8) -> nat {
    if dt <= 2 {
        1
    } else if dt <= 4 {
        2
    } else if dt <= 7 {
        4
    } else {
        8
    }
}

pub open spec fn le16(d: Seq<u8>, s: int) -> int {
    d[s] + 256 * d[s + 1]
}

pub open spec fn le32(d: Seq<u8>, s: int) -> int {
    le16(d, s) + 65536 * le16(d, s + 2)
}

pub open spec fn le64(d: Seq<u8>, s: int) -> int {
    le32(d, s) + 4294967296 * le32(d, s + 4)
}

/// The value of datatype `dt` whose bytes start at position `s` of `d`.
pub open spec fn value_at(d: Seq<u8>, dt: u8, s: int) -> FieldValue {
    if dt == INT8 {
        FieldValue::I8(d[s] as i8)
    } else if dt == UINT8 {
        FieldValue::U8(d[s])
    } else if dt == INT16 {
        FieldValue::I16(le16(d, s) as i16)
    } else if dt == UINT16 {
        FieldValue::U16(le16(d, s) as u16)
    } else if dt == INT32 {
        FieldValue::I32(le32(d, s) as i32)
    } else if dt == UINT32 {
        FieldValue::U32(le32(d, s) as u32)
    } else if dt == FLOAT32 {
        FieldValue::F32Bits(le32(d, s) as u32)
    } else {
        FieldValue::F64Bits(le64(d, s) as u64)
    }
}

impl PointCloudView {
    /// Where the value of field `f` for point `i` starts.
    pub open spec fn value_start(&self, f: PointFieldView, i: int) -> int {
        self.point_step * i + f.offset
    }

    /// The column of field `f`: one value per point, `row_step` of them.
    pub open spec fn field_column(&self, f: PointFieldView) -> Seq<FieldValue> {
        Seq::new(self.row_step as nat, |i: int| value_at(self.data, f.datatype, self.value_start(f, i)))
    }

    /// Field `f` can be read without a failing conversion, overflow or
    /// out-of-bounds access: a known datatype, one element per point, and
    /// every point's bytes inside the data.
    pub open spec fn field_decodable(&self, f: PointFieldView) -> bool {
        &&& valid_datatype(f.datatype)
        &&& self.row_step > 0 ==> {
            &&& f.count == 1
            &&& self.value_start(f, self.row_step - 1) + datatype_size(f.datatype) <= u32::MAX
            &&& self.value_start(f, self.row_step - 1) + datatype_size(f.datatype) <= self.data.len()
        }
    }

    /// Every field of the cloud can be decoded.
    pub open spec fn decodable(&self) -> bool {
        &&& self.fields.len() > 0 ==> self.height * self.width <= u32::MAX
        &&& forall|k: int| 0 <= k < self.fields.len() ==> #[trigger] self.field_decodable(self.fields[k])
    }
}

impl PointCloud {
    /// Tests `decodable`.
    pub fn is_decodable(&self) -> (b: bool)
        ensures
            b == self@.decodable(),
    {
        let h: u64 = self.height as u64;
        let w: u64 = self.width as u64;
        assert(h * w <= u32::MAX * u32::MAX) by (nonlinear_arith)
            requires
                h <= u32::MAX,
                w <= u32::MAX,
        ;
        if self.fields.len() > 0 && h * w > u32::MAX as u64 {
            return false;
        }
        let mut k: usize = 0;
        while k < self.fields.len()
            invariant
                k <= self.fields.len(),
                forall|j: int| 0 <= j < k ==> #[trigger] self@.field_decodable(self@.fields[j]),
            decreases self.fields.len() - k,
        {
            assert(self@.fields[k as int] == self.fields@[k as int]@);
            if !self.is_field_decodable(&self.fields[k]) {
                return false;
            }
            k = k + 1;
        }
        true
    }

    /// Tests `field_decodable`.
    pub fn is_field_decodable(&self, f: &PointField) -> (b: bool)
        ensures
            b == self@.field_decodable(f@),
    {
        if f.datatype < 1 || f.datatype > 8 {
            return false;
        }
        if self.row_step == 0 {
            return true;
        }
        if f.count != 1 {
            return false;
        }
        let size = datatype_size_of(f.datatype);
        let p: u64 = self.point_step as u64;
        let r: u64 = (self.row_step - 1) as u64;
        assert(p * r <= u32::MAX * u32::MAX) by (nonlinear_arith)
            requires
                p <= u32::MAX,
                r <= u32::MAX,
        ;
        let last: u64 = p * r + (f.offset as u64) + (size as u64);
        last <= u32::MAX as u64 && last <= self.data.len() as u64
    }

    /// Decodes every field into its column, in field order.
    pub fn decode(&self) -> (res: Vec<DecodedField>)
        requires
            self@.decodable(),
        ensures
            res.len() == self.fields.len(),
            forall|k: int|
                0 <= k < res.len() ==> {
                    &&& (#[trigger] res[k]).name@ == self@.fields[k].name
                    &&& res[k].values@ == self@.field_column(self@.fields[k])
                },
    {
        let mut res: Vec<DecodedField> = Vec::new();
        let mut k: usize = 0;
        while k < self.fields.len()
            invariant
                self@.decodable(),
                k <= self.fields.len(),
                res.len() == k,
                forall|j: int|
                    0 <= j < k ==> {
                        &&& (#[trigger] res[j]).name@ == self@.fields[j].name
                        &&& res[j].values@ == self@.field_column(self@.fields[j])
                    },
            decreases self.fields.len() - k,
        {
            let f = &self.fields[k];
            assert(self@.fields[k as int] == self.fields@[k as int]@);
            assert(self@.field_decodable(self@.fields[k as int]));
            let values = self.decode_field(f);
            res.push(DecodedField { name: f.name.clone(), values });
            k = k + 1;
        }
        res
    }

    /// Decodes one field into its column.
    fn decode_field(&self, f: &PointField) -> (values: Vec<FieldValue>)
        requires
            self@.field_decodable(f@),
            self.height * self.width <= u32::MAX,
        ensures
            values@ == self@.field_column(f@),
    {
        let size = datatype_size_of(f.datatype);
        let mut values: Vec<FieldValue> = Vec::with_capacity((self.height * self.width) as usize);
        let mut idx: u32 = 0;
        while idx < self.row_step
            invariant
                self@.field_decodable(f@),
                size == datatype_size(f.datatype),
                idx <= self.row_step,
                values@ == self@.field_column(f@).take(idx as int),
            decreases self.row_step - idx,
        {
            proof {
                let last = self.row_step - 1;
                assert(self.point_step * idx <= self.point_step * last) by (nonlinear_arith)
                    requires
                        idx <= last,
                ;
            }
            let start: u32 = self.point_step * idx + f.offset;
            let end: u32 = start + f.count * size;
            let v = read_value(&self.data, f.datatype, start as usize);
            assert(end == start + size);
            values.push(v);
            assert(self@.field_column(f@).take(idx + 1) == self@.field_column(f@).take(idx as int).push(v));
            idx = idx + 1;
        }
        values
    }
}

/// Size in bytes of one value of datatype `dt`.
pub fn datatype_size_of(dt: u8) -> (n: u32)
    requires
        valid_datatype(dt),
    ensures
        n == datatype_size(dt),
{
    if dt <= 2 {
        1
    } else if dt <= 4 {
        2
    } else if dt <= 7 {
        4
    } else {
        8
    }
}

fn read_le16(d: &Vec<u8>, s: usize) -> (r: u16)
    requires
        s + 2 <= d.len(),
    ensures
        r == le16(d@, s as int),
{
    (d[s] as u16) + 256 * (d[s + 1] as u16)
}

fn read_le32(d: &Vec<u8>, s: usize) -> (r: u32)
    requires
        s + 4 <= d.len(),
    ensures
        r == le32(d@, s as int),
{
    (read_le16(d, s) as u32) + 65536 * (read_le16(d, s + 2) as u32)
}

fn read_le64(d: &Vec<u8>, s: usize) -> (r: u64)
    requires
        s + 8 <= d.len(),
    ensures
        r == le64(d@, s as int),
{
    (read_le32(d, s) as u64) + 4294967296 * (read_le32(d, s + 4) as u64)
}

/// Reads one value of datatype `dt` starting at position `s`.
pub fn read_value(d: &Vec<u8>, dt: u8, s: usize) -> (v: FieldValue)
    requires
        valid_datatype(dt),
        s + datatype_size(dt) <= d.len(),
    ensures
        v == value_at(d@, dt, s as int),
{
    if dt == INT8 {
        FieldValue::I8(d[s] as i8)
    } else if dt == UINT8 {
        FieldValue::U8(d[s])
    } else if dt == INT16 {
        FieldValue::I16(read_le16(d, s) as i16)
    } else if dt == UINT16 {
        FieldValue::U16(read_le16(d, s))
    } else if dt == INT32 {
        FieldValue::I32(read_le32(d, s) as i32)
    } else if dt == UINT32 {
        FieldValue::U32(read_le32(d, s))
    } else if dt == FLOAT32 {
        FieldValue::F32Bits(read_le32(d, s))
    } else {
        FieldValue::F64Bits(read_le64(d, s))
    }
}

/// `k` is the last position in `names` that holds `name` (`-1` when none does).
pub open spec fn is_last_name(names: Seq<Seq<char>>, name: Seq<char>, k: int) -> bool {
    &&& -1 <= k < names.len()
    &&& k >= 0 ==> names[k] == name
    &&& forall|j: int| k < j < names.len() ==> names[j] != name
}

/// Position of the last field named `name`: a later field of the same name
/// replaces an earlier one, as a later insertion under the same key does.
pub open spec fn last_named(names: Seq<Seq<char>>, name: Seq<char>) -> int
    decreases names.len(),
{
    if names.len() == 0 {
        -1
    } else if names.last() == name {
        names.len() - 1
    } else {
        last_named(names.drop_last(), name)
    }
}

pub proof fn lemma_last_named(names: Seq<Seq<char>>, name: Seq<char>, k: int)
    requires
        is_last_name(names, name, k),
    ensures
        last_named(names, name) == k,
    decreases names.len(),
{
    if names.len() > 0 && names.last() != name {
        assert(k < names.len() - 1);
        lemma_last_named(names.drop_last(), name, k);
    }
}

pub open spec fn field_names(fields: Seq<PointFieldView>) -> Seq<Seq<char>> {
    fields.map_values(|f: PointFieldView| f.name)
}

pub open spec fn column_names(cols: Seq<DecodedField>) -> Seq<Seq<char>> {
    cols.map_values(|c: DecodedField| c.name@)
}

/// Finds the column named `name` (the last one of that name).
pub fn find_column(cols: &Vec<DecodedField>, name: &str) -> (r: Option<usize>)
    ensures
        r matches Some(i) ==> i < cols.len(),
        is_last_name(column_names(cols@), name@, match r {
            None => -1,
            Some(i) => i as int,
        }),
{
    let mut j: usize = cols.len();
    while j > 0
        invariant
            j <= cols.len(),
            forall|t: int| j <= t < cols.len() ==> column_names(cols@)[t] != name@,
        decreases j,
    {
        if str_eq(cols[j - 1].name.as_str(), name) {
            return Some(j - 1);
        }
        j = j - 1;
    }
    None
}

/// What can make a point-cloud message fail to decode.
pub enum Error {
    Zstd(std::io::Error),
    CDR(CdrError),
}

/// The columns that the extractor shows: positions and intensity, one value
/// per point each.
pub struct PointFrame {
    pub stamp: Stamp,
    pub x: Vec<FieldValue>,
    pub y: Vec<FieldValue>,
    pub z: Vec<FieldValue>,
    pub intensity: Vec<FieldValue>,
}

/// The column of the last field named `name`.
pub open spec fn column_named(c: PointCloudView, name: Seq<char>) -> Seq<FieldValue> {
    c.field_column(c.fields[last_named(field_names(c.fields), name)])
}

/// The cloud has a field of this name.
pub open spec fn has_field(c: PointCloudView, name: Seq<char>) -> bool {
    last_named(field_names(c.fields), name) >= 0
}

/// The cloud decodes and has the four fields that the extractor shows.
pub open spec fn frame_ready(c: PointCloudView) -> bool {
    &&& c.decodable()
    &&& has_field(c, "x"@)
    &&& has_field(c, "y"@)
    &&& has_field(c, "z"@)
    &&& has_field(c, "intensity"@)
}

/// Decoding a point-cloud payload is defined: it has at least four bytes and,
/// where it deserializes, the cloud is ready to be shown.
pub open spec fn message_defined(data: Seq<u8>) -> bool {
    &&& data.len() >= 4
    &&& spec_serialized(data) matches Some(p) ==> (cdr_point_cloud(p) matches Some(c) ==> frame_ready(c))
}

/// The outcome of decoding a point-cloud payload.
pub open spec fn frame_outcome(data: Seq<u8>, res: Result<PointFrame, Error>) -> bool {
    match spec_serialized(data) {
        None => res matches Err(Error::Zstd(_)),
        Some(p) => match cdr_point_cloud(p) {
            None => res matches Err(Error::CDR(_)),
            Some(c) => res matches Ok(fr) && {
                &&& fr.stamp == c.stamp
                &&& fr.x@ == column_named(c, "x"@)
                &&& fr.y@ == column_named(c, "y"@)
                &&& fr.z@ == column_named(c, "z"@)
                &&& fr.intensity@ == column_named(c, "intensity"@)
            },
        },
    }
}

fn copy_values(v: &Vec<FieldValue>) -> (r: Vec<FieldValue>)
    ensures
        r@ == v@,
{
    let mut r: Vec<FieldValue> = Vec::new();
    let mut i: usize = 0;
    while i < v.len()
        invariant
            i <= v.len(),
            r@ == v@.take(i as int),
        decreases v.len() - i,
    {
        r.push(v[i]);
        assert(v@.take(i + 1) == v@.take(i as int).push(v@[i as int]));
        i = i + 1;
    }
    r
}

/// The column named `name` among the decoded columns of `cloud`, if any.
fn named_column(cloud: &PointCloud, cols: &Vec<DecodedField>, name: &str) -> (r: Option<Vec<FieldValue>>)
    requires
        cols.len() == cloud.fields.len(),
        forall|k: int|
            0 <= k < cols.len() ==> {
                &&& (#[trigger] cols[k]).name@ == cloud@.fields[k].name
                &&& cols[k].values@ == cloud@.field_column(cloud@.fields[k])
            },
    ensures
        r is Some == has_field(cloud@, name@),
        r matches Some(v) ==> v@ == column_named(cloud@, name@),
{
    let found = find_column(cols, name);
    let ghost k: int = match found {
        None => -1,
        Some(i) => i as int,
    };
    proof {
        assert(column_names(cols@) =~= field_names(cloud@.fields));
        lemma_last_named(field_names(cloud@.fields), name@, k);
    }
    match found {
        None => None,
        Some(i) => Some(copy_values(&cols[i].values)),
    }
}

/// Decodes a point-cloud payload and picks out its `x`, `y`, `z` and
/// `intensity` columns; `None` exactly where that is not defined
/// (`message_defined`).
pub fn try_decode_message(data: &[u8]) -> (res: Option<Result<PointFrame, Error>>)
    ensures
        res is None <==> !message_defined(data@),
        res matches Some(r) ==> frame_outcome(data@, r),
{
    if data.len() < 4 {
        return None;
    }
    let bytes = match serialized(data) {
        Ok(b) => b,
        Err(e) => {
            return Some(Err(Error::Zstd(e)));
        },
    };
    let cloud = match decode_point_cloud(bytes.as_slice()) {
        Ok(c) => c,
        Err(e) => {
            return Some(Err(Error::CDR(e)));
        },
    };
    if !cloud.is_decodable() {
        return None;
    }
    let cols = cloud.decode();
    let x = match named_column(&cloud, &cols, "x") {
        Some(v) => v,
        None => {
            return None;
        },
    };
    let y = match named_column(&cloud, &cols, "y") {
        Some(v) => v,
        None => {
            return None;
        },
    };
    let z = match named_column(&cloud, &cols, "z") {
        Some(v) => v,
        None => {
            return None;
        },
    };
    let intensity = match named_column(&cloud, &cols, "intensity") {
        Some(v) => v,
        None => {
            return None;
        },
    };
    Some(Ok(PointFrame { stamp: cloud.stamp, x, y, z, intensity }))
}

/// Decodes a point-cloud payload and picks out its `x`, `y`, `z` and
/// `intensity` columns.
pub fn decode_message(data: &[u8]) -> (res: Result<PointFrame, Error>)
    requires
        message_defined(data@),
    ensures
        frame_outcome(data@, res),
{
    match try_decode_message(data) {
        Some(r) => r,
        None => Ok(
            PointFrame {
                stamp: Stamp { sec: 0, nanosec: 0 },
                x: Vec::new(),
                y: Vec::new(),
                z: Vec::new(),
                intensity: Vec::new(),
            },
        ),
    }
}

} // verus!
