//! COLMAP sparse text interchange (`cameras.txt`, `images.txt`, `points3D.txt`).
//!
//! The parsers take the text of a file and check its whole line and field structure.
//! Integer fields are decoded here; a real-valued field is checked to be a valid
//! floating-point literal and kept as its token, which the caller turns into a number.

use crate::text::{
    chars_equal, chars_of, decimal, is_float_literal, is_float_literal_chars, join_spaces, join_with_spaces,
    parse_unsigned, parse_unsigned_chars, push_chars, push_decimal, push_str, split_lines,
    split_white_space, string_from_chars, text_lines, tokens, trim, trim_chars, trim_start,
    trim_start_chars,
};
use vstd::prelude::*;

verus! {

/// An error while reading a COLMAP text directory.
#[derive(Debug)]
pub enum ColmapError {
    /// The file could not be read; the text describes the I/O failure.
    Io(String),
    /// A line of the file does not have the expected shape.
    Parse { path: String, line: usize, message: String },
}

/// The mathematical content of a [`ColmapError`].
pub enum ColmapErrorView {
    Io(Seq<char>),
    Parse { path: Seq<char>, line: nat, message: Seq<char> },
}

impl View for ColmapError {
    type V = ColmapErrorView;

    open spec fn view(&self) -> ColmapErrorView {
        match self {
            ColmapError::Io(m) => ColmapErrorView::Io(m@),
            ColmapError::Parse { path, line, message } => ColmapErrorView::Parse {
                path: path@,
                line: *line as nat,
                message: message@,
            },
        }
    }
}

/// The text that `Display` shows for an error.
pub open spec fn error_text(e: ColmapErrorView) -> Seq<char> {
    match e {
        ColmapErrorView::Io(m) => "I/O error: "@ + m,
        ColmapErrorView::Parse { path, line, message } => "parse error in "@ + path + ":"@
            + decimal(line) + ": "@ + message,
    }
}

impl ColmapError {
    /// The human-readable description of the error.
    pub fn message(&self) -> (r: String)
        ensures
            r@ == error_text(self@),
    {
        let mut out: Vec<char> = Vec::new();
        match self {
            ColmapError::Io(m) => {
                push_str(&mut out, "I/O error: ");
                push_str(&mut out, m.as_str());
            },
            ColmapError::Parse { path, line, message } => {
                push_str(&mut out, "parse error in ");
                push_str(&mut out, path.as_str());
                push_str(&mut out, ":");
                push_decimal(&mut out, *line);
                push_str(&mut out, ": ");
                push_str(&mut out, message.as_str());
            },
        }
        string_from_chars(out.as_slice())
    }
}

/// One observation of a 3D point: an image and the index of a 2D point in it.
#[derive(Clone, Copy, Debug, PartialEq, Eq, Structural)]
pub struct ColmapTrackElement {
    pub image_id: u32,
    pub point2d_index: usize,
}

/// A line of `cameras.txt`; `params` holds the floating-point parameter literals.
#[derive(Debug)]
pub struct ColmapCameraFields {
    pub id: u32,
    pub raw_model: String,
    pub width: u32,
    pub height: u32,
    pub params: Vec<String>,
}

/// A 2D point of an image; `x` and `y` are floating-point literals.
#[derive(Debug)]
pub struct ColmapPoint2dFields {
    pub x: String,
    pub y: String,
    pub point3d_id: Option<u64>,
}

/// An image of `images.txt`; the pose fields are floating-point literals.
#[derive(Debug)]
pub struct ColmapImageFields {
    pub id: u32,
    pub qw: String,
    pub qx: String,
    pub qy: String,
    pub qz: String,
    pub tx: String,
    pub ty: String,
    pub tz: String,
    pub camera_id: u32,
    pub name: String,
    pub points2d: Vec<ColmapPoint2dFields>,
}

/// A line of `points3D.txt`; `x`, `y`, `z` and `error` are floating-point literals.
#[derive(Debug)]
pub struct ColmapPoint3dFields {
    pub id: u64,
    pub x: String,
    pub y: String,
    pub z: String,
    pub color: [u8; 3],
    pub error: String,
    pub track: Vec<ColmapTrackElement>,
}

pub struct CameraView {
    pub id: u32,
    pub raw_model: Seq<char>,
    pub width: u32,
    pub height: u32,
    pub params: Seq<Seq<char>>,
}

pub struct Point2dView {
    pub x: Seq<char>,
    pub y: Seq<char>,
    pub point3d_id: Option<u64>,
}

pub struct ImageView {
    pub id: u32,
    pub pose: Seq<Seq<char>>,
    pub camera_id: u32,
    pub name: Seq<char>,
    pub points2d: Seq<Point2dView>,
}

pub struct Point3dView {
    pub id: u64,
    pub xyz: Seq<Seq<char>>,
    pub color: Seq<u8>,
    pub error: Seq<char>,
    pub track: Seq<ColmapTrackElement>,
}

pub open spec fn strings_view(v: Seq<String>) -> Seq<Seq<char>> {
    v.map_values(|s: String| s@)
}

impl View for ColmapCameraFields {
    type V = CameraView;

    open spec fn view(&self) -> CameraView {
        CameraView {
            id: self.id,
            raw_model: self.raw_model@,
            width: self.width,
            height: self.height,
            params: strings_view(self.params@),
        }
    }
}

impl View for ColmapPoint2dFields {
    type V = Point2dView;

    open spec fn view(&self) -> Point2dView {
        Point2dView { x: self.x@, y: self.y@, point3d_id: self.point3d_id }
    }
}

impl View for ColmapImageFields {
    type V = ImageView;

    open spec fn view(&self) -> ImageView {
        ImageView {
            id: self.id,
            pose: seq![self.qw@, self.qx@, self.qy@, self.qz@, self.tx@, self.ty@, self.tz@],
            camera_id: self.camera_id,
            name: self.name@,
            points2d: self.points2d@.map_values(|p: ColmapPoint2dFields| p@),
        }
    }
}

impl View for ColmapPoint3dFields {
    type V = Point3dView;

    open spec fn view(&self) -> Point3dView {
        Point3dView {
            id: self.id,
            xyz: seq![self.x@, self.y@, self.z@],
            color: self.color@,
            error: self.error@,
            track: self.track@,
        }
    }
}

pub open spec fn parse_fault(path: Seq<char>, line: nat, message: Seq<char>) -> ColmapErrorView {
    ColmapErrorView::Parse { path, line, message }
}

pub open spec fn invalid_field(path: Seq<char>, line: nat, field: Seq<char>, value: Seq<char>) -> ColmapErrorView {
    parse_fault(path, line, "invalid "@ + field + ": "@ + value)
}

/// An unsigned field no larger than `max`, or the error that names it.
pub open spec fn unsigned_field(
    token: Seq<char>,
    max: nat,
    path: Seq<char>,
    line: nat,
    field: Seq<char>,
) -> Result<nat, ColmapErrorView> {
    match parse_unsigned(token, max) {
        Some(v) => Ok(v),
        None => Err(invalid_field(path, line, field, token)),
    }
}

/// A real-valued field, kept as its literal, or the error that names it.
pub open spec fn float_field(token: Seq<char>, path: Seq<char>, line: nat, field: Seq<char>) -> Result<
    Seq<char>,
    ColmapErrorView,
> {
    if is_float_literal(token) {
        Ok(token)
    } else {
        Err(invalid_field(path, line, field, token))
    }
}

/// The first token that is not a floating-point literal.
pub open spec fn first_non_float(tokens: Seq<Seq<char>>) -> Option<Seq<char>>
    decreases tokens.len(),
{
    if tokens.len() == 0 {
        None
    } else if !is_float_literal(tokens[0]) {
        Some(tokens[0])
    } else {
        first_non_float(tokens.drop_first())
    }
}

/// Puts `acc` in front of a successful result; an error passes through.
pub open spec fn prepend_ok<T>(acc: Seq<T>, r: Result<Seq<T>, ColmapErrorView>) -> Result<
    Seq<T>,
    ColmapErrorView,
> {
    match r {
        Ok(rest) => Ok(acc + rest),
        Err(e) => Err(e),
    }
}

/// A line that holds data: not blank and not a `#` comment.
pub open spec fn is_data_line(line: Seq<char>) -> bool {
    trim(line).len() > 0 && !(trim_start(line).len() > 0 && trim_start(line)[0] == '#')
}

/// A line of `cameras.txt`: `ID MODEL WIDTH HEIGHT PARAMS...`.
pub open spec fn camera_line(parts: Seq<Seq<char>>, path: Seq<char>, line: nat) -> Result<
    CameraView,
    ColmapErrorView,
> {
    if parts.len() < 5 {
        Err(parse_fault(path, line, "camera line requires at least 5 fields"@))
    } else {
        match unsigned_field(parts[0], u32::MAX as nat, path, line, "camera id"@) {
            Err(e) => Err(e),
            Ok(id) => match unsigned_field(parts[2], u32::MAX as nat, path, line, "camera width"@) {
                Err(e) => Err(e),
                Ok(width) => match unsigned_field(
                    parts[3],
                    u32::MAX as nat,
                    path,
                    line,
                    "camera height"@,
                ) {
                    Err(e) => Err(e),
                    Ok(height) => match first_non_float(parts.skip(4)) {
                        Some(bad) => Err(invalid_field(path, line, "camera parameter"@, bad)),
                        None => Ok(
                            CameraView {
                                id: id as u32,
                                raw_model: parts[1],
                                width: width as u32,
                                height: height as u32,
                                params: parts.skip(4),
                            },
                        ),
                    },
                },
            },
        }
    }
}

/// The cameras of the data lines `lines[i..]`, numbered from one.
pub open spec fn cameras_from(lines: Seq<Seq<char>>, i: nat, path: Seq<char>) -> Result<
    Seq<CameraView>,
    ColmapErrorView,
>
    decreases lines.len() - i,
{
    if i >= lines.len() {
        Ok(Seq::empty())
    } else if is_data_line(lines[i as int]) {
        match camera_line(tokens(lines[i as int]), path, i + 1) {
            Err(e) => Err(e),
            Ok(c) => prepend_ok(seq![c], cameras_from(lines, i + 1, path)),
        }
    } else {
        cameras_from(lines, i + 1, path)
    }
}

/// The track `IMAGE_ID POINT2D_IDX ...` of a 3D point.
pub open spec fn track_from(tokens: Seq<Seq<char>>, path: Seq<char>, line: nat) -> Result<
    Seq<ColmapTrackElement>,
    ColmapErrorView,
>
    decreases tokens.len(),
{
    if tokens.len() < 2 {
        Ok(Seq::empty())
    } else {
        match unsigned_field(tokens[0], u32::MAX as nat, path, line, "track image id"@) {
            Err(e) => Err(e),
            Ok(image_id) => match unsigned_field(
                tokens[1],
                usize::MAX as nat,
                path,
                line,
                "track point2D index"@,
            ) {
                Err(e) => Err(e),
                Ok(index) => prepend_ok(
                    seq![
                        ColmapTrackElement {
                            image_id: image_id as u32,
                            point2d_index: index as usize,
                        },
                    ],
                    track_from(tokens.skip(2), path, line),
                ),
            },
        }
    }
}

/// A line of `points3D.txt`: `ID X Y Z R G B ERROR TRACK...`.
pub open spec fn point3d_line(parts: Seq<Seq<char>>, path: Seq<char>, line: nat) -> Result<
    Point3dView,
    ColmapErrorView,
> {
    if parts.len() < 8 {
        Err(parse_fault(path, line, "point3D line requires at least 8 fields"@))
    } else if (parts.len() - 8) % 2 != 0 {
        Err(parse_fault(path, line, "point3D track must contain image-id/point2D-index pairs"@))
    } else {
        match track_from(parts.skip(8), path, line) {
            Err(e) => Err(e),
            Ok(track) => match unsigned_field(parts[0], u64::MAX as nat, path, line, "point3D id"@) {
                Err(e) => Err(e),
                Ok(id) => match float_field(parts[1], path, line, "point3D x"@) {
                    Err(e) => Err(e),
                    Ok(x) => match float_field(parts[2], path, line, "point3D y"@) {
                        Err(e) => Err(e),
                        Ok(y) => match float_field(parts[3], path, line, "point3D z"@) {
                            Err(e) => Err(e),
                            Ok(z) => match unsigned_field(parts[4], 255, path, line, "red"@) {
                                Err(e) => Err(e),
                                Ok(r) => match unsigned_field(parts[5], 255, path, line, "green"@) {
                                    Err(e) => Err(e),
                                    Ok(g) => match unsigned_field(
                                        parts[6],
                                        255,
                                        path,
                                        line,
                                        "blue"@,
                                    ) {
                                        Err(e) => Err(e),
                                        Ok(b) => match float_field(
                                            parts[7],
                                            path,
                                            line,
                                            "reprojection error"@,
                                        ) {
                                            Err(e) => Err(e),
                                            Ok(error) => Ok(
                                                Point3dView {
                                                    id: id as u64,
                                                    xyz: seq![x, y, z],
                                                    color: seq![r as u8, g as u8, b as u8],
                                                    error,
                                                    track,
                                                },
                                            ),
                                        },
                                    },
                                },
                            },
                        },
                    },
                },
            },
        }
    }
}

/// The 3D points of the data lines `lines[i..]`, numbered from one.
pub open spec fn points_from(lines: Seq<Seq<char>>, i: nat, path: Seq<char>) -> Result<
    Seq<Point3dView>,
    ColmapErrorView,
>
    decreases lines.len() - i,
{
    if i >= lines.len() {
        Ok(Seq::empty())
    } else if is_data_line(lines[i as int]) {
        match point3d_line(tokens(lines[i as int]), path, i + 1) {
            Err(e) => Err(e),
            Ok(p) => prepend_ok(seq![p], points_from(lines, i + 1, path)),
        }
    } else {
        points_from(lines, i + 1, path)
    }
}

/// The `X Y POINT3D_ID` triples of an image; `-1` marks a point without a 3D point.
pub open spec fn points2d_from(tokens: Seq<Seq<char>>, path: Seq<char>, line: nat) -> Result<
    Seq<Point2dView>,
    ColmapErrorView,
>
    decreases tokens.len(),
{
    if tokens.len() < 3 {
        Ok(Seq::empty())
    } else {
        let id: Result<Option<u64>, ColmapErrorView> = if tokens[2] == seq!['-', '1'] {
            Ok(None)
        } else {
            match unsigned_field(tokens[2], u64::MAX as nat, path, line, "point3D id"@) {
                Err(e) => Err(e),
                Ok(v) => Ok(Some(v as u64)),
            }
        };
        match id {
            Err(e) => Err(e),
            Ok(point3d_id) => match float_field(tokens[0], path, line, "point2D x"@) {
                Err(e) => Err(e),
                Ok(x) => match float_field(tokens[1], path, line, "point2D y"@) {
                    Err(e) => Err(e),
                    Ok(y) => prepend_ok(
                        seq![Point2dView { x, y, point3d_id }],
                        points2d_from(tokens.skip(3), path, line),
                    ),
                },
            },
        }
    }
}

/// The 2D-point line of an image.
pub open spec fn points2d_line(parts: Seq<Seq<char>>, path: Seq<char>, line: nat) -> Result<
    Seq<Point2dView>,
    ColmapErrorView,
> {
    if parts.len() == 0 {
        Ok(Seq::empty())
    } else if parts.len() % 3 != 0 {
        Err(parse_fault(path, line, "point2D line must contain x y point3D-id triples"@))
    } else {
        points2d_from(parts, path, line)
    }
}

/// Whether a line is a `#` comment once its leading white space is dropped.
pub open spec fn is_comment_line(line: Seq<char>) -> bool {
    trim_start(line).len() > 0 && trim_start(line)[0] == '#'
}

/// The first line at or after `j` that is not a comment, or the number of lines.
pub open spec fn next_points_line(lines: Seq<Seq<char>>, j: nat) -> nat
    decreases lines.len() - j,
{
    if j >= lines.len() {
        lines.len()
    } else if is_comment_line(lines[j as int]) {
        next_points_line(lines, j + 1)
    } else {
        j
    }
}

/// An image from its metadata tokens and its 2D-point line.
pub open spec fn image_entry(
    parts: Seq<Seq<char>>,
    points: Seq<char>,
    path: Seq<char>,
    line: nat,
    points_line: nat,
) -> Result<ImageView, ColmapErrorView> {
    match unsigned_field(parts[0], u32::MAX as nat, path, line, "image id"@) {
        Err(e) => Err(e),
        Ok(id) => match float_field(parts[1], path, line, "qw"@) {
            Err(e) => Err(e),
            Ok(qw) => match float_field(parts[2], path, line, "qx"@) {
                Err(e) => Err(e),
                Ok(qx) => match float_field(parts[3], path, line, "qy"@) {
                    Err(e) => Err(e),
                    Ok(qy) => match float_field(parts[4], path, line, "qz"@) {
                        Err(e) => Err(e),
                        Ok(qz) => match float_field(parts[5], path, line, "tx"@) {
                            Err(e) => Err(e),
                            Ok(tx) => match float_field(parts[6], path, line, "ty"@) {
                                Err(e) => Err(e),
                                Ok(ty) => match float_field(parts[7], path, line, "tz"@) {
                                    Err(e) => Err(e),
                                    Ok(tz) => match unsigned_field(
                                        parts[8],
                                        u32::MAX as nat,
                                        path,
                                        line,
                                        "camera id"@,
                                    ) {
                                        Err(e) => Err(e),
                                        Ok(camera_id) => match points2d_line(
                                            tokens(points),
                                            path,
                                            points_line,
                                        ) {
                                            Err(e) => Err(e),
                                            Ok(points2d) => Ok(
                                                ImageView {
                                                    id: id as u32,
                                                    pose: seq![qw, qx, qy, qz, tx, ty, tz],
                                                    camera_id: camera_id as u32,
                                                    name: join_spaces(parts.skip(9)),
                                                    points2d,
                                                },
                                            ),
                                        },
                                    },
                                },
                            },
                        },
                    },
                },
            },
        },
    }
}

/// The images of `lines[i..]`: each metadata line is followed by the next line that is
/// not a comment, which lists the image's 2D points.
pub open spec fn images_from(lines: Seq<Seq<char>>, i: nat, path: Seq<char>) -> Result<
    Seq<ImageView>,
    ColmapErrorView,
>
    decreases lines.len() - i,
{
    if i >= lines.len() {
        Ok(Seq::empty())
    } else {
        let meta = trim(lines[i as int]);
        if meta.len() == 0 || meta[0] == '#' {
            images_from(lines, i + 1, path)
        } else {
            let parts = tokens(meta);
            if parts.len() < 10 {
                Err(parse_fault(path, i + 1, "image metadata line requires at least 10 fields"@))
            } else {
                let j = next_points_line(lines, i + 1);
                let points: Seq<char> = if j < lines.len() {
                    lines[j as int]
                } else {
                    Seq::empty()
                };
                let points_line: nat = if j < lines.len() {
                    j + 1
                } else {
                    i + 2
                };
                let next: nat = if j < lines.len() {
                    j + 1
                } else {
                    lines.len()
                };
                proof {
                    lemma_next_points_line_bounds(lines, i + 1);
                }
                match image_entry(parts, points, path, i + 1, points_line) {
                    Err(e) => Err(e),
                    Ok(image) => prepend_ok(seq![image], images_from(lines, next, path)),
                }
            }
        }
    }
}

/// The next line of `points3D.txt` that is not a comment lies between `j` and the end.
pub proof fn lemma_next_points_line_bounds(lines: Seq<Seq<char>>, j: nat)
    ensures
        j <= lines.len() ==> j <= next_points_line(lines, j) <= lines.len(),
        j > lines.len() ==> next_points_line(lines, j) == lines.len(),
    decreases lines.len() - j,
{
    if j < lines.len() && is_comment_line(lines[j as int]) {
        lemma_next_points_line_bounds(lines, j + 1);
    }
}

pub open spec fn error_view(e: ColmapError) -> ColmapErrorView {
    e@
}

/// The images `v` come from the metadata lines `ms` of `lines`, taken in increasing
/// order from line `i`: each image's id is the unsigned value of the first token of its
/// line and its camera id that of the ninth.
pub open spec fn images_match_lines(lines: Seq<Seq<char>>, i: nat, v: Seq<ImageView>, ms: Seq<nat>) -> bool {
    &&& ms.len() == v.len()
    &&& forall|k: int| 0 <= k < ms.len() ==> i <= #[trigger] ms[k] < lines.len()
    &&& forall|k1: int, k2: int| 0 <= k1 < k2 < ms.len() ==> #[trigger] ms[k1] < #[trigger] ms[k2]
    &&& forall|k: int|
        0 <= k < ms.len() ==> {
            let t = tokens(trim(lines[#[trigger] ms[k] as int]));
            &&& t.len() >= 10
            &&& parse_unsigned(t[0], u32::MAX as nat) == Some(v[k].id as nat)
            &&& v[k].pose == t.subrange(1, 8)
            &&& parse_unsigned(t[8], u32::MAX as nat) == Some(v[k].camera_id as nat)
            &&& v[k].name == join_spaces(t.skip(9))
        }
}

proof fn lemma_image_entry_ids(parts: Seq<Seq<char>>, points: Seq<char>, path: Seq<char>, line: nat, points_line: nat)
    requires
        image_entry(parts, points, path, line, points_line) is Ok,
    ensures
        parse_unsigned(parts[0], u32::MAX as nat) == Some(
            image_entry(parts, points, path, line, points_line)->Ok_0.id as nat,
        ),
        parse_unsigned(parts[8], u32::MAX as nat) == Some(
            image_entry(parts, points, path, line, points_line)->Ok_0.camera_id as nat,
        ),
        parts.len() >= 8 ==> image_entry(parts, points, path, line, points_line)->Ok_0.pose == parts.subrange(1, 8),
        image_entry(parts, points, path, line, points_line)->Ok_0.name == join_spaces(parts.skip(9)),
{
    if parts.len() >= 8 {
        assert(image_entry(parts, points, path, line, points_line)->Ok_0.pose =~= parts.subrange(1, 8));
    }
}

/// Every parsed image comes from its own metadata line, in order: its id is the value of
/// the line's first token and its camera id the value of the line's ninth token.
pub proof fn lemma_image_ids_from_tokens(lines: Seq<Seq<char>>, i: nat, path: Seq<char>)
    requires
        images_from(lines, i, path) is Ok,
    ensures
        exists|ms: Seq<nat>| #[trigger] images_match_lines(lines, i, images_from(lines, i, path)->Ok_0, ms),
    decreases lines.len() - i,
{
    let v = images_from(lines, i, path)->Ok_0;
    if i >= lines.len() {
        assert(images_match_lines(lines, i, v, Seq::empty()));
    } else {
        let meta = trim(lines[i as int]);
        if meta.len() == 0 || meta[0] == '#' {
            lemma_image_ids_from_tokens(lines, i + 1, path);
            let ms = choose|ms: Seq<nat>| #[trigger] images_match_lines(lines, i + 1, images_from(lines, i + 1, path)->Ok_0, ms);
            assert(images_match_lines(lines, i, v, ms));
        } else {
            let parts = tokens(meta);
            let j = next_points_line(lines, i + 1);
            let points: Seq<char> = if j < lines.len() {
                lines[j as int]
            } else {
                Seq::empty()
            };
            let points_line: nat = if j < lines.len() {
                j + 1
            } else {
                i + 2
            };
            let next: nat = if j < lines.len() {
                j + 1
            } else {
                lines.len()
            };
            lemma_next_points_line_bounds(lines, i + 1);
            let image = image_entry(parts, points, path, i + 1, points_line)->Ok_0;
            lemma_image_entry_ids(parts, points, path, i + 1, points_line);
            lemma_image_ids_from_tokens(lines, next, path);
            let rest = images_from(lines, next, path)->Ok_0;
            let ms0 = choose|ms: Seq<nat>| #[trigger] images_match_lines(lines, next, rest, ms);
            let ms = seq![i] + ms0;
            assert(v == seq![image] + rest);
            assert forall|k: int| 0 <= k < ms.len() implies i <= #[trigger] ms[k] < lines.len() by {
                if k > 0 {
                    assert(ms[k] == ms0[k - 1]);
                }
            }
            assert forall|k1: int, k2: int| 0 <= k1 < k2 < ms.len() implies #[trigger] ms[k1] < #[trigger] ms[k2] by {
                assert(ms[k2] == ms0[k2 - 1]);
                if k1 > 0 {
                    assert(ms[k1] == ms0[k1 - 1]);
                }
            }
            assert forall|k: int| 0 <= k < ms.len() implies {
                let t = tokens(trim(lines[#[trigger] ms[k] as int]));
                &&& t.len() >= 10
                &&& parse_unsigned(t[0], u32::MAX as nat) == Some(v[k].id as nat)
                &&& v[k].pose == t.subrange(1, 8)
                &&& parse_unsigned(t[8], u32::MAX as nat) == Some(v[k].camera_id as nat)
                &&& v[k].name == join_spaces(t.skip(9))
            } by {
                if k > 0 {
                    assert(ms[k] == ms0[k - 1]);
                    assert(v[k] == rest[k - 1]);
                } else {
                    assert(v[0] == image);
                }
            }
            assert(images_match_lines(lines, i, v, ms));
        }
    }
}

/// The cameras `v` come from the data lines `ms` of `lines`, taken in increasing order
/// from line `i`: each camera's id, width and height are the unsigned values of the
/// first, third and fourth tokens of its line, its model the second token and its
/// parameters the tokens after the fourth.
pub open spec fn cameras_match_lines(lines: Seq<Seq<char>>, i: nat, v: Seq<CameraView>, ms: Seq<nat>) -> bool {
    &&& ms.len() == v.len()
    &&& forall|k: int| 0 <= k < ms.len() ==> i <= #[trigger] ms[k] < lines.len()
    &&& forall|k1: int, k2: int| 0 <= k1 < k2 < ms.len() ==> #[trigger] ms[k1] < #[trigger] ms[k2]
    &&& forall|k: int|
        0 <= k < ms.len() ==> {
            let t = tokens(lines[#[trigger] ms[k] as int]);
            &&& t.len() >= 5
            &&& parse_unsigned(t[0], u32::MAX as nat) == Some(v[k].id as nat)
            &&& parse_unsigned(t[2], u32::MAX as nat) == Some(v[k].width as nat)
            &&& parse_unsigned(t[3], u32::MAX as nat) == Some(v[k].height as nat)
            &&& v[k].raw_model == t[1]
            &&& v[k].params == t.skip(4)
        }
}

/// Every parsed camera comes from its own data line, in order: its id, width and height
/// are the values of the line's first, third and fourth tokens.
pub proof fn lemma_camera_sizes_from_tokens(lines: Seq<Seq<char>>, i: nat, path: Seq<char>)
    requires
        cameras_from(lines, i, path) is Ok,
    ensures
        exists|ms: Seq<nat>| #[trigger] cameras_match_lines(lines, i, cameras_from(lines, i, path)->Ok_0, ms),
    decreases lines.len() - i,
{
    let v = cameras_from(lines, i, path)->Ok_0;
    if i >= lines.len() {
        assert(cameras_match_lines(lines, i, v, Seq::empty()));
    } else if is_data_line(lines[i as int]) {
        let parts = tokens(lines[i as int]);
        let camera = camera_line(parts, path, i + 1)->Ok_0;
        lemma_camera_sizes_from_tokens(lines, i + 1, path);
        let rest = cameras_from(lines, i + 1, path)->Ok_0;
        let ms0 = choose|ms: Seq<nat>| #[trigger] cameras_match_lines(lines, i + 1, rest, ms);
        let ms = seq![i] + ms0;
        assert(v == seq![camera] + rest);
        assert forall|k: int| 0 <= k < ms.len() implies i <= #[trigger] ms[k] < lines.len() by {
            if k > 0 {
                assert(ms[k] == ms0[k - 1]);
            }
        }
        assert forall|k1: int, k2: int| 0 <= k1 < k2 < ms.len() implies #[trigger] ms[k1] < #[trigger] ms[k2] by {
            assert(ms[k2] == ms0[k2 - 1]);
            if k1 > 0 {
                assert(ms[k1] == ms0[k1 - 1]);
            }
        }
        assert forall|k: int| 0 <= k < ms.len() implies {
            let t = tokens(lines[#[trigger] ms[k] as int]);
            &&& t.len() >= 5
            &&& parse_unsigned(t[0], u32::MAX as nat) == Some(v[k].id as nat)
            &&& parse_unsigned(t[2], u32::MAX as nat) == Some(v[k].width as nat)
            &&& parse_unsigned(t[3], u32::MAX as nat) == Some(v[k].height as nat)
            &&& v[k].raw_model == t[1]
            &&& v[k].params == t.skip(4)
        } by {
            if k > 0 {
                assert(ms[k] == ms0[k - 1]);
                assert(v[k] == rest[k - 1]);
            } else {
                assert(v[0] == camera);
            }
        }
        assert(cameras_match_lines(lines, i, v, ms));
    } else {
        lemma_camera_sizes_from_tokens(lines, i + 1, path);
        let ms = choose|ms: Seq<nat>| #[trigger] cameras_match_lines(lines, i + 1, cameras_from(lines, i + 1, path)->Ok_0, ms);
        assert(cameras_match_lines(lines, i, v, ms));
    }
}

/// The points `v` come from the data lines `ms` of `lines`, taken in increasing order
/// from line `i`: each point's id is the unsigned value of the first token of its line,
/// its coordinates the next three tokens, its colour the values of the three after
/// them and its error the eighth token.
pub open spec fn points_match_lines(lines: Seq<Seq<char>>, i: nat, v: Seq<Point3dView>, ms: Seq<nat>) -> bool {
    &&& ms.len() == v.len()
    &&& forall|k: int| 0 <= k < ms.len() ==> i <= #[trigger] ms[k] < lines.len()
    &&& forall|k1: int, k2: int| 0 <= k1 < k2 < ms.len() ==> #[trigger] ms[k1] < #[trigger] ms[k2]
    &&& forall|k: int|
        0 <= k < ms.len() ==> {
            let t = tokens(lines[#[trigger] ms[k] as int]);
            &&& t.len() >= 8
            &&& parse_unsigned(t[0], u64::MAX as nat) == Some(v[k].id as nat)
            &&& v[k].xyz == t.subrange(1, 4)
            &&& v[k].color.len() == 3
            &&& parse_unsigned(t[4], 255) == Some(v[k].color[0] as nat)
            &&& parse_unsigned(t[5], 255) == Some(v[k].color[1] as nat)
            &&& parse_unsigned(t[6], 255) == Some(v[k].color[2] as nat)
            &&& v[k].error == t[7]
        }
}

proof fn lemma_point3d_fields(parts: Seq<Seq<char>>, path: Seq<char>, line: nat)
    requires
        point3d_line(parts, path, line) is Ok,
    ensures
        ({
            let p = point3d_line(parts, path, line)->Ok_0;
            &&& parts.len() >= 8
            &&& parse_unsigned(parts[0], u64::MAX as nat) == Some(p.id as nat)
            &&& p.xyz == parts.subrange(1, 4)
            &&& p.color.len() == 3
            &&& parse_unsigned(parts[4], 255) == Some(p.color[0] as nat)
            &&& parse_unsigned(parts[5], 255) == Some(p.color[1] as nat)
            &&& parse_unsigned(parts[6], 255) == Some(p.color[2] as nat)
            &&& p.error == parts[7]
        }),
{
    let p = point3d_line(parts, path, line)->Ok_0;
    assert(p.xyz =~= parts.subrange(1, 4));
}

/// Every parsed 3D point comes from its own data line, in order: its id, coordinates,
/// colour and error are read from the line's first eight tokens.
pub proof fn lemma_point_fields_from_tokens(lines: Seq<Seq<char>>, i: nat, path: Seq<char>)
    requires
        points_from(lines, i, path) is Ok,
    ensures
        exists|ms: Seq<nat>| #[trigger] points_match_lines(lines, i, points_from(lines, i, path)->Ok_0, ms),
    decreases lines.len() - i,
{
    let v = points_from(lines, i, path)->Ok_0;
    if i >= lines.len() {
        assert(points_match_lines(lines, i, v, Seq::empty()));
    } else if is_data_line(lines[i as int]) {
        let parts = tokens(lines[i as int]);
        let point = point3d_line(parts, path, i + 1)->Ok_0;
        lemma_point3d_fields(parts, path, i + 1);
        lemma_point_fields_from_tokens(lines, i + 1, path);
        let rest = points_from(lines, i + 1, path)->Ok_0;
        let ms0 = choose|ms: Seq<nat>| #[trigger] points_match_lines(lines, i + 1, rest, ms);
        let ms = seq![i] + ms0;
        assert(v == seq![point] + rest);
        assert forall|k: int| 0 <= k < ms.len() implies i <= #[trigger] ms[k] < lines.len() by {
            if k > 0 {
                assert(ms[k] == ms0[k - 1]);
            }
        }
        assert forall|k1: int, k2: int| 0 <= k1 < k2 < ms.len() implies #[trigger] ms[k1] < #[trigger] ms[k2] by {
            assert(ms[k2] == ms0[k2 - 1]);
            if k1 > 0 {
                assert(ms[k1] == ms0[k1 - 1]);
            }
        }
        assert forall|k: int| 0 <= k < ms.len() implies {
            let t = tokens(lines[#[trigger] ms[k] as int]);
            &&& t.len() >= 8
            &&& parse_unsigned(t[0], u64::MAX as nat) == Some(v[k].id as nat)
            &&& v[k].xyz == t.subrange(1, 4)
            &&& v[k].color.len() == 3
            &&& parse_unsigned(t[4], 255) == Some(v[k].color[0] as nat)
            &&& parse_unsigned(t[5], 255) == Some(v[k].color[1] as nat)
            &&& parse_unsigned(t[6], 255) == Some(v[k].color[2] as nat)
            &&& v[k].error == t[7]
        } by {
            if k > 0 {
                assert(ms[k] == ms0[k - 1]);
                assert(v[k] == rest[k - 1]);
            } else {
                assert(v[0] == point);
            }
        }
        assert(points_match_lines(lines, i, v, ms));
    } else {
        lemma_point_fields_from_tokens(lines, i + 1, path);
        let ms = choose|ms: Seq<nat>| #[trigger] points_match_lines(lines, i + 1, points_from(lines, i + 1, path)->Ok_0, ms);
        assert(points_match_lines(lines, i, v, ms));
    }
}

pub open spec fn result_view<T: View>(r: Result<Vec<T>, ColmapError>) -> Result<
    Seq<T::V>,
    ColmapErrorView,
> {
    match r {
        Ok(v) => Ok(v@.map_values(|x: T| x@)),
        Err(e) => Err(e@),
    }
}

fn parse_error(path: &[char], line: usize, message: &str) -> (e: ColmapError)
    ensures
        e@ == parse_fault(path@, line as nat, message@),
{
    ColmapError::Parse {
        path: string_from_chars(path),
        line,
        message: string_from_chars(chars_of(message).as_slice()),
    }
}

fn make_invalid_field(path: &[char], line: usize, field: &str, value: &[char]) -> (e: ColmapError)
    ensures
        e@ == invalid_field(path@, line as nat, field@, value@),
{
    let mut m: Vec<char> = Vec::new();
    push_str(&mut m, "invalid ");
    push_str(&mut m, field);
    push_str(&mut m, ": ");
    push_chars(&mut m, value);
    ColmapError::Parse { path: string_from_chars(path), line, message: string_from_chars(m.as_slice()) }
}

fn unsigned_token(token: &[char], max: u64, path: &[char], line: usize, field: &str) -> (r: Result<
    u64,
    ColmapError,
>)
    ensures
        match r {
            Ok(v) => unsigned_field(token@, max as nat, path@, line as nat, field@) == Ok::<
                nat,
                ColmapErrorView,
            >(v as nat),
            Err(e) => unsigned_field(token@, max as nat, path@, line as nat, field@) == Err::<
                nat,
                ColmapErrorView,
            >(e@),
        },
{
    match parse_unsigned_chars(token, max) {
        Some(v) => Ok(v),
        None => Err(make_invalid_field(path, line, field, token)),
    }
}

fn float_token(token: &[char], path: &[char], line: usize, field: &str) -> (r: Result<
    String,
    ColmapError,
>)
    ensures
        match r {
            Ok(v) => float_field(token@, path@, line as nat, field@) == Ok::<
                Seq<char>,
                ColmapErrorView,
            >(v@),
            Err(e) => float_field(token@, path@, line as nat, field@) == Err::<
                Seq<char>,
                ColmapErrorView,
            >(e@),
        },
{
    if is_float_literal_chars(token) {
        Ok(string_from_chars(token))
    } else {
        Err(make_invalid_field(path, line, field, token))
    }
}

pub open spec fn words(v: Seq<Vec<char>>) -> Seq<Seq<char>> {
    v.map_values(|p: Vec<char>| p@)
}

pub open spec fn item_view<T: View>(r: Result<T, ColmapError>) -> Result<T::V, ColmapErrorView> {
    match r {
        Ok(v) => Ok(v@),
        Err(e) => Err(e@),
    }
}

proof fn lemma_first_non_float_step(w: Seq<Seq<char>>, i: int)
    requires
        0 <= i < w.len(),
        is_float_literal(w[i]),
    ensures
        first_non_float(w.skip(i)) == first_non_float(w.skip(i + 1)),
{
    assert(w.skip(i).drop_first() =~= w.skip(i + 1));
}

/// Index of the first token at or after `from` that is not a floating-point literal.
fn first_non_float_index(parts: &Vec<Vec<char>>, from: usize) -> (r: Option<usize>)
    requires
        from <= parts@.len(),
    ensures
        match r {
            None => first_non_float(words(parts@).skip(from as int)) == None::<Seq<char>>,
            Some(k) => from <= k < parts@.len() && first_non_float(words(parts@).skip(from as int))
                == Some(parts@[k as int]@),
        },
{
    let n = parts.len();
    let ghost w = words(parts@);
    let mut i = from;
    while i < n
        invariant
            from <= i <= n == parts@.len(),
            w == words(parts@),
            first_non_float(w.skip(from as int)) == first_non_float(w.skip(i as int)),
        decreases n - i,
    {
        if !is_float_literal_chars(parts[i].as_slice()) {
            assert(w.skip(i as int)[0] == parts@[i as int]@);
            return Some(i);
        }
        proof {
            lemma_first_non_float_step(w, i as int);
        }
        i = i + 1;
    }
    assert(w.skip(n as int) =~= Seq::<Seq<char>>::empty());
    None
}

/// Owned strings of `parts[from..]`.
fn strings_from(parts: &Vec<Vec<char>>, from: usize) -> (r: Vec<String>)
    requires
        from <= parts@.len(),
    ensures
        strings_view(r@) == words(parts@).skip(from as int),
{
    let n = parts.len();
    let mut out: Vec<String> = Vec::new();
    let mut i = from;
    while i < n
        invariant
            from <= i <= n == parts@.len(),
            strings_view(out@) == words(parts@).subrange(from as int, i as int),
        decreases n - i,
    {
        let s = string_from_chars(parts[i].as_slice());
        assert(s@ == words(parts@)[i as int]);
        let ghost before = out@;
        out.push(s);
        assert(strings_view(out@) =~= strings_view(before).push(s@));
        assert(words(parts@).subrange(from as int, i + 1) =~= words(parts@).subrange(
            from as int,
            i as int,
        ).push(words(parts@)[i as int]));
        i = i + 1;
    }
    assert(words(parts@).subrange(from as int, n as int) =~= words(parts@).skip(from as int));
    out
}

/// Decodes one line of `cameras.txt` from its tokens.
fn parse_camera_line(parts: &Vec<Vec<char>>, path: &[char], line: usize) -> (r: Result<
    ColmapCameraFields,
    ColmapError,
>)
    ensures
        item_view(r) == camera_line(words(parts@), path@, line as nat),
{
    let ghost w = words(parts@);
    if parts.len() < 5 {
        return Err(parse_error(path, line, "camera line requires at least 5 fields"));
    }
    let id = match unsigned_token(parts[0].as_slice(), 0xffff_ffff, path, line, "camera id") {
        Ok(v) => v,
        Err(e) => return Err(e),
    };
    let width = match unsigned_token(parts[2].as_slice(), 0xffff_ffff, path, line, "camera width") {
        Ok(v) => v,
        Err(e) => return Err(e),
    };
    let height = match unsigned_token(parts[3].as_slice(), 0xffff_ffff, path, line, "camera height") {
        Ok(v) => v,
        Err(e) => return Err(e),
    };
    match first_non_float_index(parts, 4) {
        Some(k) => {
            return Err(make_invalid_field(path, line, "camera parameter", parts[k].as_slice()));
        },
        None => {},
    }
    let params = strings_from(parts, 4);
    let camera = ColmapCameraFields {
        id: id as u32,
        raw_model: string_from_chars(parts[1].as_slice()),
        width: width as u32,
        height: height as u32,
        params,
    };
    assert(camera@.params =~= w.skip(4));
    Ok(camera)
}

/// Whether a line carries data rather than being blank or a comment.
fn is_data_line_chars(line: &[char]) -> (r: bool)
    ensures
        r == is_data_line(line@),
{
    let t = trim_chars(line);
    if t.len() == 0 {
        return false;
    }
    let ts = trim_start_chars(line);
    !(ts.len() > 0 && ts[0] == '#')
}

/// Whether a line is a comment.
fn is_comment_line_chars(line: &[char]) -> (r: bool)
    ensures
        r == is_comment_line(line@),
{
    let ts = trim_start_chars(line);
    ts.len() > 0 && ts[0] == '#'
}

/// The lines of a text together with their views.
fn lines_of(content: &str) -> (r: Vec<Vec<char>>)
    requires
        content@.len() < usize::MAX,
    ensures
        words(r@) == text_lines(content@),
        r@.len() < usize::MAX,
{
    let chars = chars_of(content);
    let lines = split_lines(chars.as_slice());
    proof {
        crate::text::lemma_text_lines_len(content@);
    }
    assert(words(lines@) =~= text_lines(content@));
    lines
}

/// Parses the text of `cameras.txt`; `path` names the file in error messages.
pub fn parse_cameras_text(path: &str, content: &str) -> (r: Result<
    Vec<ColmapCameraFields>,
    ColmapError,
>)
    requires
        content@.len() < usize::MAX,
    ensures
        result_view(r) == cameras_from(text_lines(content@), 0, path@),
{
    let path_chars = chars_of(path);
    let lines = lines_of(content);
    let ghost all = words(lines@);
    let n = lines.len();
    let mut out: Vec<ColmapCameraFields> = Vec::new();
    let mut i: usize = 0;
    while i < n
        invariant
            i <= n == lines@.len() < usize::MAX,
            all == words(lines@),
            all == text_lines(content@),
            path_chars@ == path@,
            cameras_from(all, 0, path@) == prepend_ok(
                out@.map_values(|x: ColmapCameraFields| x@),
                cameras_from(all, i as nat, path@),
            ),
        decreases n - i,
    {
        assert(all[i as int] == lines@[i as int]@);
        if is_data_line_chars(lines[i].as_slice()) {
            let parts = split_white_space(lines[i].as_slice());
            assert(words(parts@) =~= tokens(all[i as int]));
            match parse_camera_line(&parts, path_chars.as_slice(), i + 1) {
                Ok(c) => {
                    let ghost before = out@.map_values(|x: ColmapCameraFields| x@);
                    out.push(c);
                    proof {
                        assert(out@.map_values(|x: ColmapCameraFields| x@) =~= before + seq![
                            out@.last()@,
                        ]);
                        match cameras_from(all, (i + 1) as nat, path@) {
                            Ok(rest) => {
                                assert(before + (seq![out@.last()@] + rest) =~= (before + seq![
                                    out@.last()@,
                                ]) + rest);
                            },
                            Err(_) => {},
                        }
                    }
                },
                Err(e) => {
                    assert(cameras_from(all, i as nat, path@) == Err::<
                        Seq<CameraView>,
                        ColmapErrorView,
                    >(e@));
                    assert(cameras_from(all, 0, path@) == Err::<
                        Seq<CameraView>,
                        ColmapErrorView,
                    >(e@));
                    assert(all == text_lines(content@));
                    return Err(e);
                },
            }
        }
        i = i + 1;
    }
    assert(out@.map_values(|x: ColmapCameraFields| x@) + Seq::<CameraView>::empty() =~= out@.map_values(
        |x: ColmapCameraFields| x@,
    ));
    Ok(out)
}

/// Decodes the track tokens `parts[from..]`.
fn parse_track(parts: &Vec<Vec<char>>, from: usize, path: &[char], line: usize) -> (r: Result<
    Vec<ColmapTrackElement>,
    ColmapError,
>)
    requires
        from <= parts@.len(),
        (parts@.len() - from) % 2 == 0,
    ensures
        match r {
            Ok(v) => track_from(words(parts@).skip(from as int), path@, line as nat) == Ok::<
                Seq<ColmapTrackElement>,
                ColmapErrorView,
            >(v@),
            Err(e) => track_from(words(parts@).skip(from as int), path@, line as nat) == Err::<
                Seq<ColmapTrackElement>,
                ColmapErrorView,
            >(e@),
        },
{
    let n = parts.len();
    let ghost w = words(parts@);
    let mut out: Vec<ColmapTrackElement> = Vec::new();
    let mut i = from;
    while i < n
        invariant
            from <= i <= n == parts@.len(),
            (n - i) % 2 == 0,
            w == words(parts@),
            track_from(w.skip(from as int), path@, line as nat) == prepend_ok(
                out@,
                track_from(w.skip(i as int), path@, line as nat),
            ),
        decreases n - i,
    {
        let ghost rest = w.skip(i as int);
        assert(rest[0] == parts@[i as int]@);
        assert(rest[1] == parts@[i + 1]@);
        assert(rest.skip(2) =~= w.skip(i + 2));
        let image_id = match unsigned_token(
            parts[i].as_slice(),
            0xffff_ffff,
            path,
            line,
            "track image id",
        ) {
            Ok(v) => v,
            Err(e) => return Err(e),
        };
        let index = match unsigned_token(
            parts[i + 1].as_slice(),
            usize::MAX as u64,
            path,
            line,
            "track point2D index",
        ) {
            Ok(v) => v,
            Err(e) => return Err(e),
        };
        let element = ColmapTrackElement { image_id: image_id as u32, point2d_index: index as usize };
        let ghost before = out@;
        out.push(element);
        proof {
            match track_from(w.skip(i + 2), path@, line as nat) {
                Ok(tail) => {
                    assert(before + (seq![element] + tail) =~= out@ + tail);
                },
                Err(_) => {},
            }
        }
        i = i + 2;
    }
    assert(w.skip(n as int) =~= Seq::<Seq<char>>::empty());
    assert(out@ + Seq::<ColmapTrackElement>::empty() =~= out@);
    Ok(out)
}

/// Decodes one line of `points3D.txt` from its tokens.
fn parse_point3d_line(parts: &Vec<Vec<char>>, path: &[char], line: usize) -> (r: Result<
    ColmapPoint3dFields,
    ColmapError,
>)
    ensures
        item_view(r) == point3d_line(words(parts@), path@, line as nat),
{
    let ghost w = words(parts@);
    let n = parts.len();
    if n < 8 {
        return Err(parse_error(path, line, "point3D line requires at least 8 fields"));
    }
    if (n - 8) % 2 != 0 {
        return Err(
            parse_error(
                path,
                line,
                "point3D track must contain image-id/point2D-index pairs",
            ),
        );
    }
    let track = match parse_track(parts, 8, path, line) {
        Ok(t) => t,
        Err(e) => return Err(e),
    };
    assert(w[0] == parts@[0]@ && w[1] == parts@[1]@ && w[2] == parts@[2]@ && w[3] == parts@[3]@);
    assert(w[4] == parts@[4]@ && w[5] == parts@[5]@ && w[6] == parts@[6]@ && w[7] == parts@[7]@);
    let id = match unsigned_token(parts[0].as_slice(), u64::MAX, path, line, "point3D id") {
        Ok(v) => v,
        Err(e) => return Err(e),
    };
    let x = match float_token(parts[1].as_slice(), path, line, "point3D x") {
        Ok(v) => v,
        Err(e) => return Err(e),
    };
    let y = match float_token(parts[2].as_slice(), path, line, "point3D y") {
        Ok(v) => v,
        Err(e) => return Err(e),
    };
    let z = match float_token(parts[3].as_slice(), path, line, "point3D z") {
        Ok(v) => v,
        Err(e) => return Err(e),
    };
    let red = match unsigned_token(parts[4].as_slice(), 255, path, line, "red") {
        Ok(v) => v,
        Err(e) => return Err(e),
    };
    let green = match unsigned_token(parts[5].as_slice(), 255, path, line, "green") {
        Ok(v) => v,
        Err(e) => return Err(e),
    };
    let blue = match unsigned_token(parts[6].as_slice(), 255, path, line, "blue") {
        Ok(v) => v,
        Err(e) => return Err(e),
    };
    let error = match float_token(parts[7].as_slice(), path, line, "reprojection error") {
        Ok(v) => v,
        Err(e) => return Err(e),
    };
    let point = ColmapPoint3dFields {
        id,
        x,
        y,
        z,
        color: [red as u8, green as u8, blue as u8],
        error,
        track,
    };
    assert(point@.color =~= seq![red as u8, green as u8, blue as u8]);
    Ok(point)
}

/// Parses the text of `points3D.txt`; `path` names the file in error messages.
pub fn parse_points_text(path: &str, content: &str) -> (r: Result<
    Vec<ColmapPoint3dFields>,
    ColmapError,
>)
    requires
        content@.len() < usize::MAX,
    ensures
        result_view(r) == points_from(text_lines(content@), 0, path@),
{
    let path_chars = chars_of(path);
    let lines = lines_of(content);
    let ghost all = words(lines@);
    let n = lines.len();
    let mut out: Vec<ColmapPoint3dFields> = Vec::new();
    let mut i: usize = 0;
    while i < n
        invariant
            i <= n == lines@.len() < usize::MAX,
            all == words(lines@),
            all == text_lines(content@),
            path_chars@ == path@,
            points_from(all, 0, path@) == prepend_ok(
                out@.map_values(|x: ColmapPoint3dFields| x@),
                points_from(all, i as nat, path@),
            ),
        decreases n - i,
    {
        assert(all[i as int] == lines@[i as int]@);
        if is_data_line_chars(lines[i].as_slice()) {
            let parts = split_white_space(lines[i].as_slice());
            assert(words(parts@) =~= tokens(all[i as int]));
            match parse_point3d_line(&parts, path_chars.as_slice(), i + 1) {
                Ok(p) => {
                    let ghost before = out@.map_values(|x: ColmapPoint3dFields| x@);
                    out.push(p);
                    proof {
                        assert(out@.map_values(|x: ColmapPoint3dFields| x@) =~= before + seq![
                            out@.last()@,
                        ]);
                        match points_from(all, (i + 1) as nat, path@) {
                            Ok(rest) => {
                                assert(before + (seq![out@.last()@] + rest) =~= (before + seq![
                                    out@.last()@,
                                ]) + rest);
                            },
                            Err(_) => {},
                        }
                    }
                },
                Err(e) => {
                    assert(points_from(all, i as nat, path@) == Err::<
                        Seq<Point3dView>,
                        ColmapErrorView,
                    >(e@));
                    return Err(e);
                },
            }
        }
        i = i + 1;
    }
    assert(out@.map_values(|x: ColmapPoint3dFields| x@) + Seq::<Point3dView>::empty() =~= out@.map_values(
        |x: ColmapPoint3dFields| x@,
    ));
    Ok(out)
}

/// Decodes the 2D-point triples `parts[i..]`.
fn parse_points2d_triples(parts: &Vec<Vec<char>>, path: &[char], line: usize) -> (r: Result<
    Vec<ColmapPoint2dFields>,
    ColmapError,
>)
    requires
        parts@.len() % 3 == 0,
    ensures
        match r {
            Ok(v) => points2d_from(words(parts@), path@, line as nat) == Ok::<
                Seq<Point2dView>,
                ColmapErrorView,
            >(v@.map_values(|p: ColmapPoint2dFields| p@)),
            Err(e) => points2d_from(words(parts@), path@, line as nat) == Err::<
                Seq<Point2dView>,
                ColmapErrorView,
            >(e@),
        },
{
    let n = parts.len();
    let ghost w = words(parts@);
    let mut out: Vec<ColmapPoint2dFields> = Vec::new();
    let mut i: usize = 0;
    assert(w.skip(0) =~= w);
    while i < n
        invariant
            i <= n == parts@.len(),
            (n - i) % 3 == 0,
            w == words(parts@),
            points2d_from(w, path@, line as nat) == prepend_ok(
                out@.map_values(|p: ColmapPoint2dFields| p@),
                points2d_from(w.skip(i as int), path@, line as nat),
            ),
        decreases n - i,
    {
        let ghost rest = w.skip(i as int);
        assert(rest[0] == parts@[i as int]@);
        assert(rest[1] == parts@[i + 1]@);
        assert(rest[2] == parts@[i + 2]@);
        assert(rest.skip(3) =~= w.skip(i + 3));
        let point3d_id: Option<u64> = if chars_equal(parts[i + 2].as_slice(), &['-', '1']) {
            assert(['-', '1']@ =~= seq!['-', '1']);
            None
        } else {
            assert(['-', '1']@ =~= seq!['-', '1']);
            match unsigned_token(parts[i + 2].as_slice(), u64::MAX, path, line, "point3D id") {
                Ok(v) => Some(v),
                Err(e) => return Err(e),
            }
        };
        let x = match float_token(parts[i].as_slice(), path, line, "point2D x") {
            Ok(v) => v,
            Err(e) => return Err(e),
        };
        let y = match float_token(parts[i + 1].as_slice(), path, line, "point2D y") {
            Ok(v) => v,
            Err(e) => return Err(e),
        };
        let point = ColmapPoint2dFields { x, y, point3d_id };
        let ghost before = out@.map_values(|p: ColmapPoint2dFields| p@);
        out.push(point);
        proof {
            assert(out@.map_values(|p: ColmapPoint2dFields| p@) =~= before + seq![out@.last()@]);
            match points2d_from(w.skip(i + 3), path@, line as nat) {
                Ok(tail) => {
                    assert(before + (seq![out@.last()@] + tail) =~= (before + seq![out@.last()@])
                        + tail);
                },
                Err(_) => {},
            }
        }
        i = i + 3;
    }
    assert(w.skip(n as int) =~= Seq::<Seq<char>>::empty());
    assert(out@.map_values(|p: ColmapPoint2dFields| p@) + Seq::<Point2dView>::empty()
        =~= out@.map_values(|p: ColmapPoint2dFields| p@));
    Ok(out)
}

/// Decodes the 2D-point line of an image.
fn parse_points2d_line(line_chars: &[char], path: &[char], line: usize) -> (r: Result<
    Vec<ColmapPoint2dFields>,
    ColmapError,
>)
    ensures
        match r {
            Ok(v) => points2d_line(tokens(line_chars@), path@, line as nat) == Ok::<
                Seq<Point2dView>,
                ColmapErrorView,
            >(v@.map_values(|p: ColmapPoint2dFields| p@)),
            Err(e) => points2d_line(tokens(line_chars@), path@, line as nat) == Err::<
                Seq<Point2dView>,
                ColmapErrorView,
            >(e@),
        },
{
    let parts = split_white_space(line_chars);
    assert(words(parts@) =~= tokens(line_chars@));
    if parts.len() == 0 {
        let v: Vec<ColmapPoint2dFields> = Vec::new();
        assert(v@.map_values(|p: ColmapPoint2dFields| p@) =~= Seq::<Point2dView>::empty());
        return Ok(v);
    }
    if parts.len() % 3 != 0 {
        return Err(
            parse_error(path, line, "point2D line must contain x y point3D-id triples"),
        );
    }
    parse_points2d_triples(&parts, path, line)
}

/// Decodes an image from its metadata tokens and its 2D-point line.
fn parse_image_entry(
    parts: &Vec<Vec<char>>,
    points: &[char],
    path: &[char],
    line: usize,
    points_line: usize,
) -> (r: Result<ColmapImageFields, ColmapError>)
    requires
        parts@.len() >= 10,
    ensures
        item_view(r) == image_entry(
            words(parts@),
            points@,
            path@,
            line as nat,
            points_line as nat,
        ),
{
    let ghost w = words(parts@);
    assert(w[0] == parts@[0]@ && w[1] == parts@[1]@ && w[2] == parts@[2]@ && w[3] == parts@[3]@);
    assert(w[4] == parts@[4]@ && w[5] == parts@[5]@ && w[6] == parts@[6]@ && w[7] == parts@[7]@);
    assert(w[8] == parts@[8]@);
    let id = match unsigned_token(parts[0].as_slice(), 0xffff_ffff, path, line, "image id") {
        Ok(v) => v,
        Err(e) => return Err(e),
    };
    let qw = match float_token(parts[1].as_slice(), path, line, "qw") {
        Ok(v) => v,
        Err(e) => return Err(e),
    };
    let qx = match float_token(parts[2].as_slice(), path, line, "qx") {
        Ok(v) => v,
        Err(e) => return Err(e),
    };
    let qy = match float_token(parts[3].as_slice(), path, line, "qy") {
        Ok(v) => v,
        Err(e) => return Err(e),
    };
    let qz = match float_token(parts[4].as_slice(), path, line, "qz") {
        Ok(v) => v,
        Err(e) => return Err(e),
    };
    let tx = match float_token(parts[5].as_slice(), path, line, "tx") {
        Ok(v) => v,
        Err(e) => return Err(e),
    };
    let ty = match float_token(parts[6].as_slice(), path, line, "ty") {
        Ok(v) => v,
        Err(e) => return Err(e),
    };
    let tz = match float_token(parts[7].as_slice(), path, line, "tz") {
        Ok(v) => v,
        Err(e) => return Err(e),
    };
    let camera_id = match unsigned_token(parts[8].as_slice(), 0xffff_ffff, path, line, "camera id") {
        Ok(v) => v,
        Err(e) => return Err(e),
    };
    let name_chars = join_with_spaces(parts, 9);
    assert(parts@.skip(9).map_values(|p: Vec<char>| p@) =~= w.skip(9));
    let points2d = match parse_points2d_line(points, path, points_line) {
        Ok(v) => v,
        Err(e) => return Err(e),
    };
    let image = ColmapImageFields {
        id: id as u32,
        qw,
        qx,
        qy,
        qz,
        tx,
        ty,
        tz,
        camera_id: camera_id as u32,
        name: string_from_chars(name_chars.as_slice()),
        points2d,
    };
    Ok(image)
}

/// Parses the text of `images.txt`; `path` names the file in error messages.
pub fn parse_images_text(path: &str, content: &str) -> (r: Result<
    Vec<ColmapImageFields>,
    ColmapError,
>)
    requires
        content@.len() < usize::MAX,
    ensures
        result_view(r) == images_from(text_lines(content@), 0, path@),
{
    let path_chars = chars_of(path);
    let lines = lines_of(content);
    let ghost all = words(lines@);
    let n = lines.len();
    let mut out: Vec<ColmapImageFields> = Vec::new();
    let mut i: usize = 0;
    while i < n
        invariant
            i <= n == lines@.len() < usize::MAX,
            all == words(lines@),
            all == text_lines(content@),
            path_chars@ == path@,
            images_from(all, 0, path@) == prepend_ok(
                out@.map_values(|x: ColmapImageFields| x@),
                images_from(all, i as nat, path@),
            ),
        decreases n - i,
    {
        assert(all[i as int] == lines@[i as int]@);
        let meta = trim_chars(lines[i].as_slice());
        if meta.len() == 0 || meta[0] == '#' {
            i = i + 1;
            continue;
        }
        let parts = split_white_space(meta.as_slice());
        assert(words(parts@) =~= tokens(meta@));
        if parts.len() < 10 {
            return Err(
                parse_error(
                    path_chars.as_slice(),
                    i + 1,
                    "image metadata line requires at least 10 fields",
                ),
            );
        }
        let mut j = i + 1;
        while j < n && is_comment_line_chars(lines[j].as_slice())
            invariant
                i < j <= n == lines@.len(),
                all == words(lines@),
                next_points_line(all, (i + 1) as nat) == next_points_line(all, j as nat),
            decreases n - j,
        {
            assert(all[j as int] == lines@[j as int]@);
            j = j + 1;
        }
        proof {
            if j < n {
                assert(all[j as int] == lines@[j as int]@);
            }
        }
        let empty: Vec<char> = Vec::new();
        let (points_line, points, next): (usize, &[char], usize) = if j < n {
            (j + 1, lines[j].as_slice(), j + 1)
        } else {
            (i + 2, empty.as_slice(), n)
        };
        assert(empty@ =~= Seq::<char>::empty());
        match parse_image_entry(&parts, points, path_chars.as_slice(), i + 1, points_line) {
            Ok(image) => {
                let ghost before = out@.map_values(|x: ColmapImageFields| x@);
                out.push(image);
                proof {
                    assert(out@.map_values(|x: ColmapImageFields| x@) =~= before + seq![
                        out@.last()@,
                    ]);
                    match images_from(all, next as nat, path@) {
                        Ok(rest) => {
                            assert(before + (seq![out@.last()@] + rest) =~= (before + seq![
                                out@.last()@,
                            ]) + rest);
                        },
                        Err(_) => {},
                    }
                }
            },
            Err(e) => {
                assert(images_from(all, i as nat, path@) == Err::<Seq<ImageView>, ColmapErrorView>(
                    e@,
                ));
                return Err(e);
            },
        }
        i = next;
    }
    assert(out@.map_values(|x: ColmapImageFields| x@) + Seq::<ImageView>::empty() =~= out@.map_values(
        |x: ColmapImageFields| x@,
    ));
    Ok(out)
}

} // verus!
