//! The scene parser: line-oriented text, one command per line. Blank lines
//! are skipped and lines whose first token begins with `#` are comments; the
//! first whitespace-delimited token of a line names the command
//! (case-insensitively) and the rest are its arguments.
//!
//! The parser consumes pre-lexed lines: the reader splits each line into
//! whitespace-separated tokens with `split_ws` and tags every token that
//! reads as a floating-point literal with that literal's bit pattern (a
//! token is a variable reference exactly when it carries no such tag — the
//! language has no sigil for variables). Everything else — keyword
//! dispatch, arities, number and quote syntax, mesh-file structure, the
//! animation table with its window and overlap rules — is decided and
//! verified here. One consequence of tokenization: a quoted mesh path is a
//! single token, so paths containing whitespace are not representable.

use vstd::prelude::*;

use crate::data::Color;
use crate::scene::Animation;
use crate::scene::bytes_eq;
use crate::scene::Command;
use crate::scene::MeshPoint;
use crate::scene::Scene;
use crate::scene::Val;
use crate::scene::ValPoint3;
use crate::scene::VarAnims;
use crate::scene::anim_wf;
use crate::scene::anims_ok;
use crate::scene::lemma_insert_anim_preserves_order;
use crate::scene::scalar_lt;
use crate::scene::slt;
use crate::scene::spec_insert_anim;

verus! {

/// One whitespace-delimited token of a scene line. `num` is the lexer's
/// tag: the bit pattern of the token read as a floating-point literal,
/// where it reads as one.
#[derive(Debug, Clone)]
pub struct Token {
    pub text: Vec<u8>,
    pub num: Option<u32>,
}

/// One line of input: its raw bytes and its tokens.
#[derive(Debug, Clone)]
pub struct TextLine {
    pub raw: Vec<u8>,
    pub toks: Vec<Token>,
}

/// A mesh sub-file handed to the parser: the path it was named by and its
/// lines.
#[derive(Debug, Clone)]
pub struct MeshFile {
    pub path: Vec<u8>,
    pub lines: Vec<TextLine>,
}

/// Ghost form of a token.
pub struct TokenV {
    pub text: Seq<u8>,
    pub num: Option<u32>,
}

/// Ghost form of a line.
pub struct LineV {
    pub raw: Seq<u8>,
    pub toks: Seq<TokenV>,
}

/// Ghost form of a mesh sub-file.
pub struct MeshFileV {
    pub path: Seq<u8>,
    pub lines: Seq<LineV>,
}

/// Ghost form of a value.
pub enum ValV {
    Raw(u32),
    Var(Seq<u8>),
}

/// Ghost form of a value triple.
pub struct ValPoint3V {
    pub x: ValV,
    pub y: ValV,
    pub z: ValV,
}

/// Ghost form of a command.
pub enum CommandV {
    Point { p: ValPoint3V, rad: ValV },
    Line(ValPoint3V, ValPoint3V),
    Triangle(ValPoint3V, ValPoint3V, ValPoint3V),
    Mesh { points: Seq<MeshPoint>, triangles: Seq<usize> },
    Identity,
    Translate(ValV, ValV, ValV),
    Scale(ValV, ValV, ValV),
    Rotate { theta: ValV, v: ValPoint3V },
    Color(Color),
}

/// Ghost form of one variable's animation list.
pub struct VarAnimsV {
    pub name: Seq<u8>,
    pub anims: Seq<Animation>,
}

/// Ghost form of a loaded scene.
pub struct SceneV {
    pub commands: Seq<CommandV>,
    pub vars: Seq<VarAnimsV>,
}

pub open spec fn token_view(t: Token) -> TokenV {
    TokenV { text: t.text@, num: t.num }
}

pub open spec fn line_view(l: TextLine) -> LineV {
    LineV { raw: l.raw@, toks: l.toks@.map_values(|t: Token| token_view(t)) }
}

pub open spec fn lines_view(ls: Seq<TextLine>) -> Seq<LineV> {
    ls.map_values(|l: TextLine| line_view(l))
}

pub open spec fn mesh_file_view(m: MeshFile) -> MeshFileV {
    MeshFileV { path: m.path@, lines: lines_view(m.lines@) }
}

pub open spec fn mesh_files_view(ms: Seq<MeshFile>) -> Seq<MeshFileV> {
    ms.map_values(|m: MeshFile| mesh_file_view(m))
}

pub open spec fn val_view(v: Val) -> ValV {
    match v {
        Val::Raw(b) => ValV::Raw(b),
        Val::Var(s) => ValV::Var(s@),
    }
}

pub open spec fn vp_view(p: ValPoint3) -> ValPoint3V {
    ValPoint3V { x: val_view(p.x), y: val_view(p.y), z: val_view(p.z) }
}

pub open spec fn cmd_view(c: Command) -> CommandV {
    match c {
        Command::Point { p, rad } => CommandV::Point { p: vp_view(p), rad: val_view(rad) },
        Command::Line(p1, p2) => CommandV::Line(vp_view(p1), vp_view(p2)),
        Command::Triangle(p1, p2, p3) => CommandV::Triangle(vp_view(p1), vp_view(p2), vp_view(p3)),
        Command::Mesh { points, triangles } => CommandV::Mesh {
            points: points@,
            triangles: triangles@,
        },
        Command::Identity => CommandV::Identity,
        Command::Translate(x, y, z) => CommandV::Translate(val_view(x), val_view(y), val_view(z)),
        Command::Scale(x, y, z) => CommandV::Scale(val_view(x), val_view(y), val_view(z)),
        Command::Rotate { theta, v } => CommandV::Rotate { theta: val_view(theta), v: vp_view(v) },
        Command::Color(c) => CommandV::Color(c),
    }
}

pub open spec fn var_anims_view(v: VarAnims) -> VarAnimsV {
    VarAnimsV { name: v.name@, anims: v.anims@ }
}

pub open spec fn vars_view(vs: Seq<VarAnims>) -> Seq<VarAnimsV> {
    vs.map_values(|v: VarAnims| var_anims_view(v))
}

pub open spec fn scene_view(s: Scene) -> SceneV {
    SceneV {
        commands: s.commands@.map_values(|c: Command| cmd_view(c)),
        vars: vars_view(s.vars@),
    }
}

/// Why a load failed; paired with the line it failed on.
#[derive(Debug, Copy, Clone, PartialEq, Eq, Structural)]
pub enum LoadErrorKind {
    UnknownCommand,
    WrongArgCount { expected: usize, found: usize },
    BadByte,
    NotANumber,
    MissingVarName,
    ReversedWindow,
    OverlappingAnimation,
    MeshPathNotQuoted,
    MeshFileMissing,
    MeshMissingPointsHeader,
    MeshBadVertexLine,
    MeshBadIndexLine,
    MeshUnexpectedEnd,
}

/// A load failure, identifying the scene line it arose on.
#[derive(Debug, Copy, Clone, PartialEq, Eq, Structural)]
pub struct LoadError {
    pub line: usize,
    pub kind: LoadErrorKind,
}

/// ASCII lowercasing of one byte.
pub open spec fn lb(c: u8) -> u8 {
    if 65 <= c <= 90 {
        (c + 32) as u8
    } else {
        c
    }
}

/// ASCII-lowercases one byte.
fn lb_byte(c: u8) -> (r: u8)
    ensures
        r == lb(c),
{
    if 65 <= c && c <= 90 {
        c + 32
    } else {
        c
    }
}

/// The command keywords of the scene language.
#[derive(Debug, Copy, Clone, PartialEq, Eq, Structural)]
pub enum Kw {
    Point,
    Line,
    Triangle,
    Mesh,
    Identity,
    Translate,
    Scale,
    Rotate,
    Color,
    Animate,
    Unknown,
}

/// Which keyword `s` names, compared ASCII-case-insensitively.
pub open spec fn spec_keyword(s: Seq<u8>) -> Kw {
    if s.len() == 5 && lb(s[0]) == 112 && lb(s[1]) == 111 && lb(s[2]) == 105 && lb(s[3]) == 110
        && lb(s[4]) == 116 {
        Kw::Point
    } else if s.len() == 4 && lb(s[0]) == 108 && lb(s[1]) == 105 && lb(s[2]) == 110 && lb(s[3])
        == 101 {
        Kw::Line
    } else if s.len() == 8 && lb(s[0]) == 116 && lb(s[1]) == 114 && lb(s[2]) == 105 && lb(s[3])
        == 97 && lb(s[4]) == 110 && lb(s[5]) == 103 && lb(s[6]) == 108 && lb(s[7]) == 101 {
        Kw::Triangle
    } else if s.len() == 4 && lb(s[0]) == 109 && lb(s[1]) == 101 && lb(s[2]) == 115 && lb(s[3])
        == 104 {
        Kw::Mesh
    } else if s.len() == 8 && lb(s[0]) == 105 && lb(s[1]) == 100 && lb(s[2]) == 101 && lb(s[3])
        == 110 && lb(s[4]) == 116 && lb(s[5]) == 105 && lb(s[6]) == 116 && lb(s[7]) == 121 {
        Kw::Identity
    } else if s.len() == 9 && lb(s[0]) == 116 && lb(s[1]) == 114 && lb(s[2]) == 97 && lb(s[3])
        == 110 && lb(s[4]) == 115 && lb(s[5]) == 108 && lb(s[6]) == 97 && lb(s[7]) == 116 && lb(
        s[8],
    ) == 101 {
        Kw::Translate
    } else if s.len() == 5 && lb(s[0]) == 115 && lb(s[1]) == 99 && lb(s[2]) == 97 && lb(s[3])
        == 108 && lb(s[4]) == 101 {
        Kw::Scale
    } else if s.len() == 6 && lb(s[0]) == 114 && lb(s[1]) == 111 && lb(s[2]) == 116 && lb(s[3])
        == 97 && lb(s[4]) == 116 && lb(s[5]) == 101 {
        Kw::Rotate
    } else if s.len() == 5 && lb(s[0]) == 99 && lb(s[1]) == 111 && lb(s[2]) == 108 && lb(s[3])
        == 111 && lb(s[4]) == 114 {
        Kw::Color
    } else if s.len() == 7 && lb(s[0]) == 97 && lb(s[1]) == 110 && lb(s[2]) == 105 && lb(s[3])
        == 109 && lb(s[4]) == 97 && lb(s[5]) == 116 && lb(s[6]) == 101 {
        Kw::Animate
    } else {
        Kw::Unknown
    }
}

/// Classifies a token as a command keyword.
pub fn keyword_of(s: &Vec<u8>) -> (k: Kw)
    ensures
        k == spec_keyword(s@),
{
    let n = s.len();
    if n == 5 && lb_byte(s[0]) == 112 && lb_byte(s[1]) == 111 && lb_byte(s[2]) == 105 && lb_byte(
        s[3],
    ) == 110 && lb_byte(s[4]) == 116 {
        return Kw::Point;
    }
    if n == 4 && lb_byte(s[0]) == 108 && lb_byte(s[1]) == 105 && lb_byte(s[2]) == 110 && lb_byte(
        s[3],
    ) == 101 {
        return Kw::Line;
    }
    if n == 8 && lb_byte(s[0]) == 116 && lb_byte(s[1]) == 114 && lb_byte(s[2]) == 105 && lb_byte(
        s[3],
    ) == 97 && lb_byte(s[4]) == 110 && lb_byte(s[5]) == 103 && lb_byte(s[6]) == 108 && lb_byte(
        s[7],
    ) == 101 {
        return Kw::Triangle;
    }
    if n == 4 && lb_byte(s[0]) == 109 && lb_byte(s[1]) == 101 && lb_byte(s[2]) == 115 && lb_byte(
        s[3],
    ) == 104 {
        return Kw::Mesh;
    }
    if n == 8 && lb_byte(s[0]) == 105 && lb_byte(s[1]) == 100 && lb_byte(s[2]) == 101 && lb_byte(
        s[3],
    ) == 110 && lb_byte(s[4]) == 116 && lb_byte(s[5]) == 105 && lb_byte(s[6]) == 116 && lb_byte(
        s[7],
    ) == 121 {
        return Kw::Identity;
    }
    if n == 9 && lb_byte(s[0]) == 116 && lb_byte(s[1]) == 114 && lb_byte(s[2]) == 97 && lb_byte(
        s[3],
    ) == 110 && lb_byte(s[4]) == 115 && lb_byte(s[5]) == 108 && lb_byte(s[6]) == 97 && lb_byte(
        s[7],
    ) == 116 && lb_byte(s[8]) == 101 {
        return Kw::Translate;
    }
    if n == 5 && lb_byte(s[0]) == 115 && lb_byte(s[1]) == 99 && lb_byte(s[2]) == 97 && lb_byte(
        s[3],
    ) == 108 && lb_byte(s[4]) == 101 {
        return Kw::Scale;
    }
    if n == 6 && lb_byte(s[0]) == 114 && lb_byte(s[1]) == 111 && lb_byte(s[2]) == 116 && lb_byte(
        s[3],
    ) == 97 && lb_byte(s[4]) == 116 && lb_byte(s[5]) == 101 {
        return Kw::Rotate;
    }
    if n == 5 && lb_byte(s[0]) == 99 && lb_byte(s[1]) == 111 && lb_byte(s[2]) == 108 && lb_byte(
        s[3],
    ) == 111 && lb_byte(s[4]) == 114 {
        return Kw::Color;
    }
    if n == 7 && lb_byte(s[0]) == 97 && lb_byte(s[1]) == 110 && lb_byte(s[2]) == 105 && lb_byte(
        s[3],
    ) == 109 && lb_byte(s[4]) == 97 && lb_byte(s[5]) == 116 && lb_byte(s[6]) == 101 {
        return Kw::Animate;
    }
    Kw::Unknown
}

/// A decimal digit byte.
pub open spec fn is_digit(c: u8) -> bool {
    48 <= c <= 57
}

/// The number a digit string denotes, most significant digit first.
pub open spec fn digits_val(s: Seq<u8>) -> int
    decreases s.len(),
{
    if s.len() == 0 {
        0
    } else {
        digits_val(s.drop_last()) * 10 + (s.last() - 48)
    }
}

/// Every byte of `s` is a decimal digit.
pub open spec fn all_digits(s: Seq<u8>) -> bool {
    forall|i: int| 0 <= i < s.len() ==> is_digit(#[trigger] s[i])
}

/// What `s` denotes as an unsigned byte: an optional `+`, then one or more
/// decimal digits whose value fits in eight bits; anything else is nothing.
pub open spec fn spec_parse_u8(s: Seq<u8>) -> Option<u8> {
    let d = if s.len() >= 1 && s[0] == 43 {
        s.drop_first()
    } else {
        s
    };
    if d.len() > 0 && all_digits(d) && digits_val(d) <= 255 {
        Some(digits_val(d) as u8)
    } else {
        None
    }
}

/// A digit string's value never falls below a prefix's value.
proof fn lemma_digits_prefix_le(d: Seq<u8>, k: int)
    requires
        all_digits(d),
        0 <= k <= d.len(),
    ensures
        0 <= digits_val(d.take(k)) <= digits_val(d),
    decreases d.len() - k,
{
    if k == d.len() {
        assert(d.take(k) =~= d);
        lemma_digits_nonneg(d);
    } else {
        lemma_digits_prefix_le(d, k + 1);
        lemma_digits_nonneg(d.take(k));
        assert(d.take(k + 1).drop_last() =~= d.take(k));
        assert(digits_val(d.take(k + 1)) == digits_val(d.take(k)) * 10 + (d[k] - 48));
    }
}

/// A digit string's value is never negative.
proof fn lemma_digits_nonneg(d: Seq<u8>)
    requires
        all_digits(d),
    ensures
        digits_val(d) >= 0,
    decreases d.len(),
{
    if d.len() > 0 {
        assert(all_digits(d.drop_last()));
        lemma_digits_nonneg(d.drop_last());
    }
}

/// Parses a token as an unsigned byte.
pub fn parse_u8_bytes(s: &Vec<u8>) -> (r: Option<u8>)
    ensures
        r == spec_parse_u8(s@),
{
    let start: usize = if s.len() >= 1 && s[0] == 43 {
        1
    } else {
        0
    };
    let ghost d = if s@.len() >= 1 && s@[0] == 43 {
        s@.drop_first()
    } else {
        s@
    };
    proof {
        assert(d =~= s@.skip(start as int));
    }
    let n = s.len();
    if n == start {
        return None;
    }
    let mut acc: u32 = 0;
    let mut i: usize = start;
    proof {
        assert(d.take(0) =~= Seq::<u8>::empty());
    }
    while i < n
        invariant
            start <= i <= n,
            n == s@.len(),
            d == s@.skip(start as int),
            d.len() == n - start,
            forall|k: int| 0 <= k < i - start ==> is_digit(#[trigger] d[k]),
            acc == digits_val(d.take(i - start)),
            acc <= 255,
        decreases n - i,
    {
        let c = s[i];
        proof {
            assert(d[i - start] == s@[i as int]);
        }
        if c < 48 || c > 57 {
            proof {
                assert(!is_digit(d[i - start]));
                assert(!all_digits(d));
            }
            return None;
        }
        let acc2: u32 = acc * 10 + (c - 48) as u32;
        proof {
            assert(d.take(i - start + 1).drop_last() =~= d.take(i - start));
            assert(d.take(i - start + 1).last() == d[i - start]);
            assert(acc2 == digits_val(d.take(i - start + 1)));
        }
        if acc2 > 255 {
            proof {
                if all_digits(d) {
                    lemma_digits_prefix_le(d, i - start + 1);
                }
            }
            return None;
        }
        acc = acc2;
        i = i + 1;
    }
    proof {
        assert(d.take(n - start) =~= d);
        assert(all_digits(d));
    }
    Some(acc as u8)
}

/// The number of leading quote bytes of `s`.
pub open spec fn leading_quotes(s: Seq<u8>) -> int
    decreases s.len(),
{
    if s.len() > 0 && s[0] == 34 {
        1 + leading_quotes(s.drop_first())
    } else {
        0
    }
}

/// The number of trailing quote bytes of `s`.
pub open spec fn trailing_quotes(s: Seq<u8>) -> int
    decreases s.len(),
{
    if s.len() > 0 && s.last() == 34 {
        1 + trailing_quotes(s.drop_last())
    } else {
        0
    }
}

/// The mesh path a token denotes: the token with its leading and trailing
/// quotes stripped, provided exactly two quotes were stripped.
pub open spec fn spec_strip_path(s: Seq<u8>) -> Option<Seq<u8>> {
    let l = leading_quotes(s);
    let rest = s.skip(l);
    let t = trailing_quotes(rest);
    if l + t == 2 {
        Some(rest.take(rest.len() - t))
    } else {
        None
    }
}

/// Bounds and character facts for the leading-quote count.
proof fn lemma_leading_quotes(s: Seq<u8>)
    ensures
        0 <= leading_quotes(s) <= s.len(),
        forall|k: int| 0 <= k < leading_quotes(s) ==> s[k] == 34,
        leading_quotes(s) < s.len() ==> s[leading_quotes(s)] != 34,
    decreases s.len(),
{
    if s.len() > 0 && s[0] == 34 {
        lemma_leading_quotes(s.drop_first());
        assert forall|k: int| 0 <= k < leading_quotes(s) implies s[k] == 34 by {
            if k > 0 {
                assert(s.drop_first()[k - 1] == s[k]);
            }
        }
    }
}

/// Bounds and character facts for the trailing-quote count.
proof fn lemma_trailing_quotes(s: Seq<u8>)
    ensures
        0 <= trailing_quotes(s) <= s.len(),
        forall|k: int| s.len() - trailing_quotes(s) <= k < s.len() ==> s[k] == 34,
        trailing_quotes(s) < s.len() ==> s[s.len() - trailing_quotes(s) - 1] != 34,
    decreases s.len(),
{
    if s.len() > 0 && s.last() == 34 {
        lemma_trailing_quotes(s.drop_last());
        assert forall|k: int| s.len() - trailing_quotes(s) <= k < s.len() implies s[k] == 34 by {
            if k < s.len() - 1 {
                assert(s.drop_last()[k] == s[k]);
            }
        }
    }
}

/// Strips the quotes around a mesh path token, if it carries exactly two.
pub fn strip_path(s: &Vec<u8>) -> (r: Option<Vec<u8>>)
    ensures
        match r {
            Some(p) => spec_strip_path(s@) == Some(p@),
            None => spec_strip_path(s@) is None,
        },
{
    let n = s.len();
    proof {
        assert(s@.skip(0) =~= s@);
    }
    let mut l: usize = 0;
    while l < n && s[l] == 34
        invariant
            0 <= l <= n,
            n == s@.len(),
            forall|k: int| 0 <= k < l ==> s@[k] == 34,
            leading_quotes(s@) == l + leading_quotes(s@.skip(l as int)),
        decreases n - l,
    {
        proof {
            assert(s@.skip(l as int)[0] == s@[l as int]);
            assert(s@.skip(l as int).drop_first() =~= s@.skip(l as int + 1));
        }
        l = l + 1;
    }
    proof {
        if l < n {
            assert(s@.skip(l as int)[0] == s@[l as int]);
        }
        assert(leading_quotes(s@) == l);
    }
    let ghost rest = s@.skip(l as int);
    proof {
        assert(rest.take(rest.len() - 0) =~= rest);
    }
    let mut t: usize = 0;
    while n - l - t > 0 && s[n - 1 - t] == 34
        invariant
            0 <= t <= n - l,
            n == s@.len(),
            rest == s@.skip(l as int),
            forall|k: int| rest.len() - t <= k < rest.len() ==> rest[k] == 34,
            trailing_quotes(rest) == t + trailing_quotes(rest.take(rest.len() - t)),
        decreases n - l - t,
    {
        proof {
            let m = rest.take(rest.len() - t);
            assert(rest[rest.len() - t - 1] == s@[n - 1 - t as int]);
            assert(m.last() == rest[rest.len() - t - 1]);
            assert(m.drop_last() =~= rest.take(rest.len() - (t + 1)));
        }
        t = t + 1;
    }
    proof {
        let m = rest.take(rest.len() - t);
        if rest.len() - t > 0 {
            assert(m.last() == rest[rest.len() - t - 1]);
            assert(rest[rest.len() - t - 1] == s@[n - 1 - t as int]);
        }
        assert(trailing_quotes(rest.take(rest.len() - t)) == 0);
        assert(trailing_quotes(rest) == t);
    }
    if l + t != 2 {
        return None;
    }
    let mut p: Vec<u8> = Vec::new();
    let mut i: usize = l;
    while i < n - t
        invariant
            l <= i <= n - t,
            n == s@.len(),
            t <= n - l,
            p@.len() == i - l,
            forall|k: int| 0 <= k < i - l ==> p@[k] == s@[l + k],
        decreases n - t - i,
    {
        p.push(s[i]);
        i = i + 1;
    }
    proof {
        assert(p@ =~= rest.take(rest.len() - t));
    }
    Some(p)
}

/// Copies a byte string.
fn clone_bytes(v: &Vec<u8>) -> (r: Vec<u8>)
    ensures
        r@ == v@,
{
    let mut r: Vec<u8> = Vec::new();
    let mut i: usize = 0;
    while i < v.len()
        invariant
            i <= v.len(),
            r@.len() == i,
            forall|k: int| 0 <= k < i ==> r@[k] == v@[k],
        decreases v.len() - i,
    {
        r.push(v[i]);
        i = i + 1;
    }
    proof {
        assert(r@ =~= v@);
    }
    r
}

/// The bytes of the mesh-file section marker `points`.
pub open spec fn points_marker() -> Seq<u8> {
    seq![112u8, 111u8, 105u8, 110u8, 116u8, 115u8]
}

/// The bytes of the mesh-file section marker `triangles`.
pub open spec fn triangles_marker() -> Seq<u8> {
    seq![116u8, 114u8, 105u8, 97u8, 110u8, 103u8, 108u8, 101u8, 115u8]
}

/// Builds the `points` marker.
fn points_vec() -> (r: Vec<u8>)
    ensures
        r@ == points_marker(),
{
    let mut v: Vec<u8> = Vec::new();
    v.push(112u8);
    v.push(111u8);
    v.push(105u8);
    v.push(110u8);
    v.push(116u8);
    v.push(115u8);
    proof {
        assert(v@ =~= points_marker());
    }
    v
}

/// Builds the `triangles` marker.
fn triangles_vec() -> (r: Vec<u8>)
    ensures
        r@ == triangles_marker(),
{
    let mut v: Vec<u8> = Vec::new();
    v.push(116u8);
    v.push(114u8);
    v.push(105u8);
    v.push(97u8);
    v.push(110u8);
    v.push(103u8);
    v.push(108u8);
    v.push(101u8);
    v.push(115u8);
    proof {
        assert(v@ =~= triangles_marker());
    }
    v
}

/// An ASCII whitespace byte: space, tab, line feed, form feed or carriage
/// return.
pub open spec fn is_ws(c: u8) -> bool {
    c == 32 || c == 9 || c == 10 || c == 12 || c == 13
}

/// The whitespace-separated tokens of `s` from position `i` on, given the
/// word read so far and the tokens already taken.
pub open spec fn spec_tokens_from(s: Seq<u8>, i: int, cur: Seq<u8>, acc: Seq<Seq<u8>>) -> Seq<
    Seq<u8>,
>
    decreases s.len() - i,
{
    if i < 0 || i >= s.len() {
        if cur.len() > 0 {
            acc.push(cur)
        } else {
            acc
        }
    } else if is_ws(s[i]) {
        if cur.len() > 0 {
            spec_tokens_from(s, i + 1, Seq::empty(), acc.push(cur))
        } else {
            spec_tokens_from(s, i + 1, Seq::empty(), acc)
        }
    } else {
        spec_tokens_from(s, i + 1, cur.push(s[i]), acc)
    }
}

/// The whitespace-separated tokens of a line: maximal runs of
/// non-whitespace bytes, in order, with empty runs dropped.
pub open spec fn spec_split_ws(s: Seq<u8>) -> Seq<Seq<u8>> {
    spec_tokens_from(s, 0, Seq::empty(), Seq::empty())
}

/// Splits a line into its whitespace-separated tokens. This is the
/// tokenization of the scene grammar; the reader only tags each token
/// afterwards with its reading as a float literal.
pub fn split_ws(raw: &Vec<u8>) -> (r: Vec<Vec<u8>>)
    ensures
        r@.map_values(|w: Vec<u8>| w@) == spec_split_ws(raw@),
{
    let n = raw.len();
    let mut out: Vec<Vec<u8>> = Vec::new();
    let mut cur: Vec<u8> = Vec::new();
    proof {
        assert(out@.map_values(|w: Vec<u8>| w@) =~= Seq::<Seq<u8>>::empty());
        assert(cur@ =~= Seq::<u8>::empty());
    }
    let mut i: usize = 0;
    while i < n
        invariant
            i <= n,
            n == raw@.len(),
            spec_split_ws(raw@) == spec_tokens_from(
                raw@,
                i as int,
                cur@,
                out@.map_values(|w: Vec<u8>| w@),
            ),
        decreases n - i,
    {
        let c = raw[i];
        if c == 32 || c == 9 || c == 10 || c == 12 || c == 13 {
            if cur.len() > 0 {
                let ghost acc_old = out@.map_values(|w: Vec<u8>| w@);
                let ghost cur_old = cur@;
                let word = cur;
                cur = Vec::new();
                out.push(word);
                proof {
                    assert(out@.map_values(|w: Vec<u8>| w@) =~= acc_old.push(cur_old));
                    assert(cur@ =~= Seq::<u8>::empty());
                }
            } else {
                proof {
                    assert(cur@ =~= Seq::<u8>::empty());
                }
            }
        } else {
            cur.push(c);
        }
        i = i + 1;
    }
    if cur.len() > 0 {
        let ghost acc_old = out@.map_values(|w: Vec<u8>| w@);
        let ghost cur_old = cur@;
        out.push(cur);
        proof {
            assert(out@.map_values(|w: Vec<u8>| w@) =~= acc_old.push(cur_old));
        }
    }
    out
}

/// The value a token stands for: its numeric tag if it reads as a number,
/// else a reference to the variable it names.
pub open spec fn spec_val_of(t: TokenV) -> ValV {
    match t.num {
        Some(b) => ValV::Raw(b),
        None => ValV::Var(t.text),
    }
}

/// The values of an argument list.
pub open spec fn spec_vals(toks: Seq<TokenV>) -> Seq<ValV> {
    toks.map_values(|t: TokenV| spec_val_of(t))
}

/// An argument list as values, arity-checked.
pub open spec fn spec_val_args(args: Seq<TokenV>, n: int) -> Result<Seq<ValV>, LoadErrorKind> {
    if args.len() != n {
        Err(
            LoadErrorKind::WrongArgCount {
                expected: n as usize,
                found: args.len() as usize,
            },
        )
    } else {
        Ok(spec_vals(args))
    }
}

/// The numeric tags of a token list, if every token carries one.
pub open spec fn spec_nums(toks: Seq<TokenV>) -> Option<Seq<u32>>
    decreases toks.len(),
{
    if toks.len() == 0 {
        Some(Seq::empty())
    } else {
        match toks[0].num {
            None => None,
            Some(b) => match spec_nums(toks.drop_first()) {
                None => None,
                Some(r) => Some(seq![b] + r),
            },
        }
    }
}

/// The unsigned bytes a token list denotes, if every token denotes one.
pub open spec fn spec_u8s(toks: Seq<TokenV>) -> Option<Seq<u8>>
    decreases toks.len(),
{
    if toks.len() == 0 {
        Some(Seq::empty())
    } else {
        match spec_parse_u8(toks[0].text) {
            None => None,
            Some(b) => match spec_u8s(toks.drop_first()) {
                None => None,
                Some(r) => Some(seq![b] + r),
            },
        }
    }
}

/// Collects the numeric tags of `toks[from..]`.
fn nums_from(toks: &Vec<Token>, from: usize) -> (r: Option<Vec<u32>>)
    requires
        from <= toks@.len(),
    ensures
        ({
            let tv = toks@.map_values(|t: Token| token_view(t)).skip(from as int);
            match r {
                Some(v) => spec_nums(tv) == Some(v@),
                None => spec_nums(tv) is None,
            }
        }),
{
    let ghost tv = toks@.map_values(|t: Token| token_view(t)).skip(from as int);
    let mut out: Vec<u32> = Vec::new();
    let mut i: usize = from;
    proof {
        assert(tv.skip(0) =~= tv);
        match spec_nums(tv) {
            None => {},
            Some(r) => {
                assert(out@ + r =~= r);
            },
        }
    }
    while i < toks.len()
        invariant
            from <= i <= toks@.len(),
            tv == toks@.map_values(|t: Token| token_view(t)).skip(from as int),
            out@.len() == i - from,
            spec_nums(tv) == match spec_nums(tv.skip(i - from)) {
                None => None::<Seq<u32>>,
                Some(r) => Some(out@ + r),
            },
        decreases toks@.len() - i,
    {
        let ghost rest = tv.skip(i - from);
        proof {
            assert(rest[0] == tv[i - from]);
            assert(tv[i - from] == token_view(toks@[i as int]));
            assert(rest.drop_first() =~= tv.skip(i - from + 1));
        }
        match toks[i].num {
            None => {
                return None;
            },
            Some(b) => {
                out.push(b);
                proof {
                    match spec_nums(tv.skip(i - from + 1)) {
                        None => {},
                        Some(r) => {
                            assert(out@ + r =~= out@.drop_last() + (seq![b] + r));
                        },
                    }
                }
            },
        }
        i = i + 1;
    }
    proof {
        assert(tv.skip(tv.len() as int) =~= Seq::<TokenV>::empty());
        match spec_nums(tv) {
            None => {},
            Some(r) => {
                assert(out@ + Seq::<u32>::empty() =~= out@);
            },
        }
    }
    Some(out)
}

/// Parses `toks[from..]` as unsigned bytes.
fn u8s_from(toks: &Vec<Token>, from: usize) -> (r: Option<Vec<u8>>)
    requires
        from <= toks@.len(),
    ensures
        ({
            let tv = toks@.map_values(|t: Token| token_view(t)).skip(from as int);
            match r {
                Some(v) => spec_u8s(tv) == Some(v@),
                None => spec_u8s(tv) is None,
            }
        }),
{
    let ghost tv = toks@.map_values(|t: Token| token_view(t)).skip(from as int);
    let mut out: Vec<u8> = Vec::new();
    let mut i: usize = from;
    proof {
        assert(tv.skip(0) =~= tv);
        match spec_u8s(tv) {
            None => {},
            Some(r) => {
                assert(out@ + r =~= r);
            },
        }
    }
    while i < toks.len()
        invariant
            from <= i <= toks@.len(),
            tv == toks@.map_values(|t: Token| token_view(t)).skip(from as int),
            out@.len() == i - from,
            spec_u8s(tv) == match spec_u8s(tv.skip(i - from)) {
                None => None::<Seq<u8>>,
                Some(r) => Some(out@ + r),
            },
        decreases toks@.len() - i,
    {
        let ghost rest = tv.skip(i - from);
        proof {
            assert(rest[0] == tv[i - from]);
            assert(tv[i - from] == token_view(toks@[i as int]));
            assert(rest.drop_first() =~= tv.skip(i - from + 1));
        }
        match parse_u8_bytes(&toks[i].text) {
            None => {
                return None;
            },
            Some(b) => {
                out.push(b);
                proof {
                    match spec_u8s(tv.skip(i - from + 1)) {
                        None => {},
                        Some(r) => {
                            assert(out@ + r =~= out@.drop_last() + (seq![b] + r));
                        },
                    }
                }
            },
        }
        i = i + 1;
    }
    proof {
        assert(tv.skip(tv.len() as int) =~= Seq::<TokenV>::empty());
        match spec_u8s(tv) {
            None => {},
            Some(r) => {
                assert(out@ + Seq::<u8>::empty() =~= out@);
            },
        }
    }
    Some(out)
}

/// Turns the argument tokens of a line (everything after the keyword) into
/// values.
fn vals_args(toks: &Vec<Token>) -> (r: Vec<Val>)
    requires
        toks@.len() >= 1,
    ensures
        ({
            let args = toks@.map_values(|t: Token| token_view(t)).drop_first();
            &&& r@.len() == args.len()
            &&& forall|k: int| 0 <= k < args.len() ==> val_view(#[trigger] r@[k]) == spec_vals(
                args,
            )[k]
        }),
{
    let ghost args = toks@.map_values(|t: Token| token_view(t)).drop_first();
    let mut out: Vec<Val> = Vec::new();
    let mut i: usize = 1;
    while i < toks.len()
        invariant
            1 <= i <= toks@.len(),
            args == toks@.map_values(|t: Token| token_view(t)).drop_first(),
            out@.len() == i - 1,
            forall|k: int| 0 <= k < i - 1 ==> val_view(#[trigger] out@[k]) == spec_vals(args)[k],
        decreases toks@.len() - i,
    {
        proof {
            assert(args[i - 1] == token_view(toks@[i as int]));
        }
        let v = match toks[i].num {
            Some(b) => Val::Raw(b),
            None => Val::Var(clone_bytes(&toks[i].text)),
        };
        out.push(v);
        i = i + 1;
    }
    out
}

/// What handling one scene line yields.
pub enum LineAction {
    Skip,
    Cmd(Command),
    Anim(Vec<u8>, Animation),
    Fail(LoadErrorKind),
}

/// Ghost form of a line's outcome.
pub enum LineActionV {
    Skip,
    Cmd(CommandV),
    Anim(Seq<u8>, Animation),
    Fail(LoadErrorKind),
}

pub open spec fn action_view(a: LineAction) -> LineActionV {
    match a {
        LineAction::Skip => LineActionV::Skip,
        LineAction::Cmd(c) => LineActionV::Cmd(cmd_view(c)),
        LineAction::Anim(n, an) => LineActionV::Anim(n@, an),
        LineAction::Fail(k) => LineActionV::Fail(k),
    }
}

/// The first mesh file of the given path.
pub open spec fn mesh_idx(ms: Seq<MeshFileV>, path: Seq<u8>) -> Option<int>
    decreases ms.len(),
{
    if ms.len() == 0 {
        None
    } else if ms[0].path == path {
        Some(0)
    } else {
        match mesh_idx(ms.drop_first(), path) {
            None => None,
            Some(k) => Some(k + 1),
        }
    }
}

/// A mesh vertex line: exactly three numeric tokens.
pub open spec fn spec_mesh_vertex(toks: Seq<TokenV>) -> Option<MeshPoint> {
    match spec_nums(toks) {
        None => None,
        Some(ns) => if ns.len() == 3 {
            Some(MeshPoint { x: ns[0], y: ns[1], z: ns[2] })
        } else {
            None
        },
    }
}

/// A mesh index line: exactly three unsigned-byte tokens.
pub open spec fn spec_mesh_index_row(toks: Seq<TokenV>) -> Option<(u8, u8, u8)> {
    match spec_u8s(toks) {
        None => None,
        Some(ns) => if ns.len() == 3 {
            Some((ns[0], ns[1], ns[2]))
        } else {
            None
        },
    }
}

/// The vertex section of a mesh file, starting at line `i`: vertex lines up
/// to the `triangles` marker, whose following line index is returned with
/// them; running out of lines before the marker is an error.
pub open spec fn spec_mesh_points(lines: Seq<LineV>, i: int) -> Result<
    (Seq<MeshPoint>, int),
    LoadErrorKind,
>
    decreases lines.len() - i,
{
    if i < 0 || i >= lines.len() {
        Err(LoadErrorKind::MeshUnexpectedEnd)
    } else if lines[i].raw == triangles_marker() {
        Ok((Seq::empty(), i + 1))
    } else {
        match spec_mesh_vertex(lines[i].toks) {
            None => Err(LoadErrorKind::MeshBadVertexLine),
            Some(mp) => match spec_mesh_points(lines, i + 1) {
                Err(k) => Err(k),
                Ok((ps, j)) => Ok((seq![mp] + ps, j)),
            },
        }
    }
}

/// The index section of a mesh file, starting at line `i` and running to
/// the end of the file: each line three vertex indices.
pub open spec fn spec_mesh_tris(lines: Seq<LineV>, i: int) -> Result<Seq<usize>, LoadErrorKind>
    decreases lines.len() - i,
{
    if i < 0 || i >= lines.len() {
        Ok(Seq::empty())
    } else {
        match spec_mesh_index_row(lines[i].toks) {
            None => Err(LoadErrorKind::MeshBadIndexLine),
            Some((a, b, c)) => match spec_mesh_tris(lines, i + 1) {
                Err(k) => Err(k),
                Ok(r) => Ok(seq![a as usize, b as usize, c as usize] + r),
            },
        }
    }
}

/// A whole mesh file: the literal line `points`, the vertex lines, the
/// literal line `triangles`, then index lines to the end of the file.
pub open spec fn spec_parse_mesh(lines: Seq<LineV>) -> Result<
    (Seq<MeshPoint>, Seq<usize>),
    LoadErrorKind,
> {
    if lines.len() == 0 {
        Err(LoadErrorKind::MeshUnexpectedEnd)
    } else if lines[0].raw != points_marker() {
        Err(LoadErrorKind::MeshMissingPointsHeader)
    } else {
        match spec_mesh_points(lines, 1) {
            Err(k) => Err(k),
            Ok((ps, j)) => match spec_mesh_tris(lines, j) {
                Err(k) => Err(k),
                Ok(ts) => Ok((ps, ts)),
            },
        }
    }
}

/// Parses a mesh sub-file.
#[verifier::loop_isolation(true)]
pub fn parse_mesh(lines: &Vec<TextLine>) -> (r: Result<
    (Vec<MeshPoint>, Vec<usize>),
    LoadErrorKind,
>)
    ensures
        ({
            let lv = lines_view(lines@);
            match r {
                Ok(pt) => spec_parse_mesh(lv) == Ok::<_, LoadErrorKind>((pt.0@, pt.1@)),
                Err(k) => spec_parse_mesh(lv) == Err::<(Seq<MeshPoint>, Seq<usize>), _>(k),
            }
        }),
{
    let ghost lv = lines_view(lines@);
    let n = lines.len();
    if n == 0 {
        return Err(LoadErrorKind::MeshUnexpectedEnd);
    }
    proof {
        assert(lv[0] == line_view(lines@[0]));
    }
    let pm = points_vec();
    if !bytes_eq(&lines[0].raw, &pm) {
        return Err(LoadErrorKind::MeshMissingPointsHeader);
    }
    let tm = triangles_vec();
    let mut ps: Vec<MeshPoint> = Vec::new();
    let mut i: usize = 1;
    proof {
        match spec_mesh_points(lv, 1) {
            Err(_) => {},
            Ok((rest, _)) => {
                assert(ps@ + rest =~= rest);
            },
        }
    }
    loop
        invariant_except_break
            1 <= i <= n,
            n == lines@.len(),
            lv == lines_view(lines@),
            n > 0 && lv[0].raw == points_marker(),
            tm@ == triangles_marker(),
            spec_mesh_points(lv, 1) == match spec_mesh_points(lv, i as int) {
                Err(k) => Err::<(Seq<MeshPoint>, int), LoadErrorKind>(k),
                Ok((rest, j)) => Ok((ps@ + rest, j)),
            },
        ensures
            spec_mesh_points(lv, 1) == Ok::<_, LoadErrorKind>((ps@, i as int)),
            i <= n,
            n == lines@.len(),
            lv == lines_view(lines@),
            n > 0 && lv[0].raw == points_marker(),
        decreases n - i,
    {
        if i >= n {
            return Err(LoadErrorKind::MeshUnexpectedEnd);
        }
        proof {
            assert(lv[i as int] == line_view(lines@[i as int]));
        }
        if bytes_eq(&lines[i].raw, &tm) {
            proof {
                assert(ps@ + Seq::<MeshPoint>::empty() =~= ps@);
            }
            i = i + 1;
            break ;
        }
        match nums_from(&lines[i].toks, 0) {
            None => {
                proof {
                    assert(lines@[i as int].toks@.map_values(|t: Token| token_view(t)).skip(0)
                        =~= lv[i as int].toks);
                }
                return Err(LoadErrorKind::MeshBadVertexLine);
            },
            Some(v) => {
                proof {
                    assert(lines@[i as int].toks@.map_values(|t: Token| token_view(t)).skip(0)
                        =~= lv[i as int].toks);
                }
                if v.len() != 3 {
                    return Err(LoadErrorKind::MeshBadVertexLine);
                }
                let mp = MeshPoint { x: v[0], y: v[1], z: v[2] };
                let ghost ps_old = ps@;
                ps.push(mp);
                proof {
                    match spec_mesh_points(lv, i + 1) {
                        Err(_) => {},
                        Ok((rest, _)) => {
                            assert(ps_old + (seq![mp] + rest) =~= ps@ + rest);
                        },
                    }
                }
            },
        }
        i = i + 1;
    }
    let ghost tri_start = i as int;
    let mut ts: Vec<usize> = Vec::new();
    proof {
        match spec_mesh_tris(lv, tri_start) {
            Err(_) => {},
            Ok(rest) => {
                assert(ts@ + rest =~= rest);
            },
        }
    }
    while i < n
        invariant
            tri_start <= i <= n,
            n == lines@.len(),
            lv == lines_view(lines@),
            n > 0 && lv[0].raw == points_marker(),
            spec_mesh_points(lv, 1) == Ok::<_, LoadErrorKind>((ps@, tri_start)),
            spec_mesh_tris(lv, tri_start) == match spec_mesh_tris(lv, i as int) {
                Err(k) => Err::<Seq<usize>, LoadErrorKind>(k),
                Ok(rest) => Ok(ts@ + rest),
            },
        decreases n - i,
    {
        proof {
            assert(lv[i as int] == line_view(lines@[i as int]));
            assert(lines@[i as int].toks@.map_values(|t: Token| token_view(t)).skip(0)
                =~= lv[i as int].toks);
        }
        match u8s_from(&lines[i].toks, 0) {
            None => {
                return Err(LoadErrorKind::MeshBadIndexLine);
            },
            Some(v) => {
                if v.len() != 3 {
                    return Err(LoadErrorKind::MeshBadIndexLine);
                }
                let ghost ts_old = ts@;
                ts.push(v[0] as usize);
                ts.push(v[1] as usize);
                ts.push(v[2] as usize);
                proof {
                    match spec_mesh_tris(lv, i + 1) {
                        Err(_) => {},
                        Ok(rest) => {
                            assert(ts_old + (seq![v@[0] as usize, v@[1] as usize, v@[2] as usize]
                                + rest) =~= ts@ + rest);
                        },
                    }
                }
            },
        }
        i = i + 1;
    }
    proof {
        match spec_mesh_tris(lv, tri_start) {
            Err(_) => {},
            Ok(rest) => {
                assert(ts@ + Seq::<usize>::empty() =~= ts@);
            },
        }
    }
    Ok((ps, ts))
}

/// What one scene line contributes: nothing, a command, an animation
/// registration, or a failure.
pub open spec fn spec_parse_line(l: LineV, meshes: Seq<MeshFileV>) -> LineActionV {
    if l.toks.len() == 0 {
        LineActionV::Skip
    } else if l.toks[0].text.len() > 0 && l.toks[0].text[0] == 35 {
        LineActionV::Skip
    } else {
        let args = l.toks.drop_first();
        match spec_keyword(l.toks[0].text) {
            Kw::Point => match spec_val_args(args, 4) {
                Err(k) => LineActionV::Fail(k),
                Ok(vs) => LineActionV::Cmd(
                    CommandV::Point {
                        p: ValPoint3V { x: vs[0], y: vs[1], z: vs[2] },
                        rad: vs[3],
                    },
                ),
            },
            Kw::Line => match spec_val_args(args, 6) {
                Err(k) => LineActionV::Fail(k),
                Ok(vs) => LineActionV::Cmd(
                    CommandV::Line(
                        ValPoint3V { x: vs[0], y: vs[1], z: vs[2] },
                        ValPoint3V { x: vs[3], y: vs[4], z: vs[5] },
                    ),
                ),
            },
            Kw::Triangle => match spec_val_args(args, 9) {
                Err(k) => LineActionV::Fail(k),
                Ok(vs) => LineActionV::Cmd(
                    CommandV::Triangle(
                        ValPoint3V { x: vs[0], y: vs[1], z: vs[2] },
                        ValPoint3V { x: vs[3], y: vs[4], z: vs[5] },
                        ValPoint3V { x: vs[6], y: vs[7], z: vs[8] },
                    ),
                ),
            },
            Kw::Mesh => if args.len() != 1 {
                LineActionV::Fail(LoadErrorKind::MeshPathNotQuoted)
            } else {
                match spec_strip_path(args[0].text) {
                    None => LineActionV::Fail(LoadErrorKind::MeshPathNotQuoted),
                    Some(p) => match mesh_idx(meshes, p) {
                        None => LineActionV::Fail(LoadErrorKind::MeshFileMissing),
                        Some(j) => match spec_parse_mesh(meshes[j].lines) {
                            Err(k) => LineActionV::Fail(k),
                            Ok(pt) => LineActionV::Cmd(
                                CommandV::Mesh { points: pt.0, triangles: pt.1 },
                            ),
                        },
                    },
                }
            },
            Kw::Identity => LineActionV::Cmd(CommandV::Identity),
            Kw::Translate => match spec_val_args(args, 3) {
                Err(k) => LineActionV::Fail(k),
                Ok(vs) => LineActionV::Cmd(CommandV::Translate(vs[0], vs[1], vs[2])),
            },
            Kw::Scale => match spec_val_args(args, 3) {
                Err(k) => LineActionV::Fail(k),
                Ok(vs) => LineActionV::Cmd(CommandV::Scale(vs[0], vs[1], vs[2])),
            },
            Kw::Rotate => match spec_val_args(args, 4) {
                Err(k) => LineActionV::Fail(k),
                Ok(vs) => LineActionV::Cmd(
                    CommandV::Rotate {
                        theta: vs[0],
                        v: ValPoint3V { x: vs[1], y: vs[2], z: vs[3] },
                    },
                ),
            },
            Kw::Color => match spec_u8s(args) {
                None => LineActionV::Fail(LoadErrorKind::BadByte),
                Some(xs) => if xs.len() != 3 {
                    LineActionV::Fail(
                        LoadErrorKind::WrongArgCount { expected: 3, found: xs.len() as usize },
                    )
                } else {
                    LineActionV::Cmd(CommandV::Color(Color { r: xs[0], g: xs[1], b: xs[2] }))
                },
            },
            Kw::Animate => if args.len() < 2 {
                LineActionV::Fail(LoadErrorKind::MissingVarName)
            } else {
                match spec_nums(args.drop_first()) {
                    None => LineActionV::Fail(LoadErrorKind::NotANumber),
                    Some(ns) => if ns.len() != 4 {
                        LineActionV::Fail(
                            LoadErrorKind::WrongArgCount { expected: 4, found: ns.len() as usize },
                        )
                    } else if slt(ns[3], ns[2]) {
                        LineActionV::Fail(LoadErrorKind::ReversedWindow)
                    } else {
                        LineActionV::Anim(
                            args[0].text,
                            Animation { from: ns[0], to: ns[1], t1: ns[2], t2: ns[3] },
                        )
                    },
                }
            },
            Kw::Unknown => LineActionV::Fail(LoadErrorKind::UnknownCommand),
        }
    }
}

/// Handles one scene line.
pub fn parse_line(line: &TextLine, meshes: &Vec<MeshFile>) -> (r: LineAction)
    ensures
        action_view(r) == spec_parse_line(line_view(*line), mesh_files_view(meshes@)),
{
    let ghost lv = line_view(*line);
    let ghost args = lv.toks.drop_first();
    if line.toks.len() == 0 {
        return LineAction::Skip;
    }
    proof {
        assert(lv.toks[0] == token_view(line.toks@[0]));
    }
    if line.toks[0].text.len() > 0 && line.toks[0].text[0] == 35 {
        return LineAction::Skip;
    }
    let kw = keyword_of(&line.toks[0].text);
    match kw {
        Kw::Point => {
            let mut vs = vals_args(&line.toks);
            if vs.len() != 4 {
                return LineAction::Fail(
                    LoadErrorKind::WrongArgCount { expected: 4, found: vs.len() },
                );
            }
            let rad = vs.pop().unwrap();
            let z = vs.pop().unwrap();
            let y = vs.pop().unwrap();
            let x = vs.pop().unwrap();
            LineAction::Cmd(Command::Point { p: ValPoint3 { x, y, z }, rad })
        },
        Kw::Line => {
            let mut vs = vals_args(&line.toks);
            if vs.len() != 6 {
                return LineAction::Fail(
                    LoadErrorKind::WrongArgCount { expected: 6, found: vs.len() },
                );
            }
            let bz = vs.pop().unwrap();
            let by = vs.pop().unwrap();
            let bx = vs.pop().unwrap();
            let az = vs.pop().unwrap();
            let ay = vs.pop().unwrap();
            let ax = vs.pop().unwrap();
            LineAction::Cmd(
                Command::Line(
                    ValPoint3 { x: ax, y: ay, z: az },
                    ValPoint3 { x: bx, y: by, z: bz },
                ),
            )
        },
        Kw::Triangle => {
            let mut vs = vals_args(&line.toks);
            if vs.len() != 9 {
                return LineAction::Fail(
                    LoadErrorKind::WrongArgCount { expected: 9, found: vs.len() },
                );
            }
            let cz = vs.pop().unwrap();
            let cy = vs.pop().unwrap();
            let cx = vs.pop().unwrap();
            let bz = vs.pop().unwrap();
            let by = vs.pop().unwrap();
            let bx = vs.pop().unwrap();
            let az = vs.pop().unwrap();
            let ay = vs.pop().unwrap();
            let ax = vs.pop().unwrap();
            LineAction::Cmd(
                Command::Triangle(
                    ValPoint3 { x: ax, y: ay, z: az },
                    ValPoint3 { x: bx, y: by, z: bz },
                    ValPoint3 { x: cx, y: cy, z: cz },
                ),
            )
        },
        Kw::Mesh => {
            if line.toks.len() != 2 {
                return LineAction::Fail(LoadErrorKind::MeshPathNotQuoted);
            }
            proof {
                assert(args[0] == token_view(line.toks@[1]));
            }
            let path = match strip_path(&line.toks[1].text) {
                None => {
                    return LineAction::Fail(LoadErrorKind::MeshPathNotQuoted);
                },
                Some(p) => p,
            };
            let ghost mv = mesh_files_view(meshes@);
            let nm = meshes.len();
            proof {
                assert(mv.skip(0) =~= mv);
            }
            let mut j: usize = 0;
            while j < nm
                invariant
                    j <= nm,
                    nm == meshes@.len(),
                    mv == mesh_files_view(meshes@),
                    mesh_idx(mv, path@) == match mesh_idx(mv.skip(j as int), path@) {
                        None => None::<int>,
                        Some(k) => Some(k + j),
                    },
                decreases nm - j,
            {
                let ghost rest = mv.skip(j as int);
                proof {
                    assert(rest[0] == mv[j as int]);
                    assert(mv[j as int] == mesh_file_view(meshes@[j as int]));
                    assert(rest.drop_first() =~= mv.skip(j as int + 1));
                }
                if bytes_eq(&meshes[j].path, &path) {
                    match parse_mesh(&meshes[j].lines) {
                        Err(k) => {
                            return LineAction::Fail(k);
                        },
                        Ok(pt) => {
                            return LineAction::Cmd(
                                Command::Mesh { points: pt.0, triangles: pt.1 },
                            );
                        },
                    }
                }
                j = j + 1;
            }
            proof {
                assert(mv.skip(nm as int) =~= Seq::<MeshFileV>::empty());
            }
            LineAction::Fail(LoadErrorKind::MeshFileMissing)
        },
        Kw::Identity => LineAction::Cmd(Command::Identity),
        Kw::Translate => {
            let mut vs = vals_args(&line.toks);
            if vs.len() != 3 {
                return LineAction::Fail(
                    LoadErrorKind::WrongArgCount { expected: 3, found: vs.len() },
                );
            }
            let z = vs.pop().unwrap();
            let y = vs.pop().unwrap();
            let x = vs.pop().unwrap();
            LineAction::Cmd(Command::Translate(x, y, z))
        },
        Kw::Scale => {
            let mut vs = vals_args(&line.toks);
            if vs.len() != 3 {
                return LineAction::Fail(
                    LoadErrorKind::WrongArgCount { expected: 3, found: vs.len() },
                );
            }
            let z = vs.pop().unwrap();
            let y = vs.pop().unwrap();
            let x = vs.pop().unwrap();
            LineAction::Cmd(Command::Scale(x, y, z))
        },
        Kw::Rotate => {
            let mut vs = vals_args(&line.toks);
            if vs.len() != 4 {
                return LineAction::Fail(
                    LoadErrorKind::WrongArgCount { expected: 4, found: vs.len() },
                );
            }
            let vz = vs.pop().unwrap();
            let vy = vs.pop().unwrap();
            let vx = vs.pop().unwrap();
            let theta = vs.pop().unwrap();
            LineAction::Cmd(Command::Rotate { theta, v: ValPoint3 { x: vx, y: vy, z: vz } })
        },
        Kw::Color => {
            proof {
                assert(line.toks@.map_values(|t: Token| token_view(t)).skip(1) =~= args);
            }
            match u8s_from(&line.toks, 1) {
                None => LineAction::Fail(LoadErrorKind::BadByte),
                Some(xs) => {
                    if xs.len() != 3 {
                        return LineAction::Fail(
                            LoadErrorKind::WrongArgCount { expected: 3, found: xs.len() },
                        );
                    }
                    LineAction::Cmd(Command::Color(Color { r: xs[0], g: xs[1], b: xs[2] }))
                },
            }
        },
        Kw::Animate => {
            if line.toks.len() < 3 {
                return LineAction::Fail(LoadErrorKind::MissingVarName);
            }
            proof {
                assert(args[0] == token_view(line.toks@[1]));
                assert(line.toks@.map_values(|t: Token| token_view(t)).skip(2)
                    =~= args.drop_first());
            }
            let name = clone_bytes(&line.toks[1].text);
            match nums_from(&line.toks, 2) {
                None => LineAction::Fail(LoadErrorKind::NotANumber),
                Some(ns) => {
                    if ns.len() != 4 {
                        return LineAction::Fail(
                            LoadErrorKind::WrongArgCount { expected: 4, found: ns.len() },
                        );
                    }
                    if scalar_lt(ns[3], ns[2]) {
                        return LineAction::Fail(LoadErrorKind::ReversedWindow);
                    }
                    LineAction::Anim(
                        name,
                        Animation { from: ns[0], to: ns[1], t1: ns[2], t2: ns[3] },
                    )
                },
            }
        },
        Kw::Unknown => LineAction::Fail(LoadErrorKind::UnknownCommand),
    }
}

/// The position of the first table entry named `name`.
pub open spec fn var_idx_v(vars: Seq<VarAnimsV>, name: Seq<u8>) -> Option<int>
    decreases vars.len(),
{
    if vars.len() == 0 {
        None
    } else if vars[0].name == name {
        Some(0)
    } else {
        match var_idx_v(vars.drop_first(), name) {
            None => None,
            Some(k) => Some(k + 1),
        }
    }
}

/// Registering one animation in the variable table: a new variable gets a
/// fresh entry at the end, an existing one has the segment placed into its
/// list, and an overlap refuses the whole registration.
pub open spec fn spec_add_anim_v(vars: Seq<VarAnimsV>, name: Seq<u8>, a: Animation) -> Option<
    Seq<VarAnimsV>,
> {
    match var_idx_v(vars, name) {
        None => Some(vars.push(VarAnimsV { name: name, anims: seq![a] })),
        Some(j) => match spec_insert_anim(vars[j].anims, a) {
            None => None,
            Some(s) => Some(vars.update(j, VarAnimsV { name: vars[j].name, anims: s })),
        },
    }
}

/// Registers one animation in the variable table; on an overlap the table
/// is left as it was.
pub fn add_animation(vars: &mut Vec<VarAnims>, name: Vec<u8>, a: Animation) -> (r: Result<(), ()>)
    ensures
        match spec_add_anim_v(vars_view(old(vars)@), name@, a) {
            None => r is Err && vars_view(final(vars)@) == vars_view(old(vars)@),
            Some(vs) => r is Ok && vars_view(final(vars)@) == vs,
        },
{
    let ghost vv = vars_view(old(vars)@);
    let n = vars.len();
    proof {
        assert(vv.skip(0) =~= vv);
    }
    let mut j: usize = 0;
    while j < n
        invariant
            j <= n,
            n == vars@.len(),
            vars@ == old(vars)@,
            vv == vars_view(old(vars)@),
            var_idx_v(vv, name@) == match var_idx_v(vv.skip(j as int), name@) {
                None => None::<int>,
                Some(k) => Some(k + j),
            },
        decreases n - j,
    {
        let ghost rest = vv.skip(j as int);
        proof {
            assert(rest[0] == vv[j as int]);
            assert(vv[j as int] == var_anims_view(vars@[j as int]));
            assert(rest.drop_first() =~= vv.skip(j as int + 1));
        }
        if bytes_eq(&vars[j].name, &name) {
            let mut entry = vars.remove(j);
            let res = crate::scene::insert_anim(&mut entry.anims, a);
            let ghost entry_v = var_anims_view(entry);
            vars.insert(j, entry);
            proof {
                assert(vars_view(vars@) =~= vv.update(j as int, entry_v));
            }
            match res {
                Ok(()) => {
                    proof {
                        assert(vars_view(vars@) == spec_add_anim_v(vv, name@, a).unwrap());
                    }
                    return Ok(());
                },
                Err(()) => {
                    proof {
                        assert(vv.update(j as int, entry_v) =~= vv);
                    }
                    return Err(());
                },
            }
        }
        j = j + 1;
    }
    proof {
        assert(vv.skip(n as int) =~= Seq::<VarAnimsV>::empty());
    }
    let mut av: Vec<Animation> = Vec::new();
    av.push(a);
    vars.push(VarAnims { name, anims: av });
    proof {
        assert(vars_view(vars@) =~= vv.push(VarAnimsV { name: name@, anims: seq![a] }));
    }
    Ok(())
}

/// The scene a line sequence loads to, starting from line `i` with the
/// partial scene `st`: commands accumulate in order, animations register in
/// the variable table, and the first failing line aborts the whole load,
/// identified by its position.
pub open spec fn spec_build_from(
    lines: Seq<LineV>,
    meshes: Seq<MeshFileV>,
    i: int,
    st: SceneV,
) -> Result<SceneV, LoadError>
    decreases lines.len() - i,
{
    if i < 0 || i >= lines.len() {
        Ok(st)
    } else {
        match spec_parse_line(lines[i], meshes) {
            LineActionV::Skip => spec_build_from(lines, meshes, i + 1, st),
            LineActionV::Cmd(c) => spec_build_from(
                lines,
                meshes,
                i + 1,
                SceneV { commands: st.commands.push(c), vars: st.vars },
            ),
            LineActionV::Anim(name, a) => match spec_add_anim_v(st.vars, name, a) {
                None => Err(
                    LoadError { line: i as usize, kind: LoadErrorKind::OverlappingAnimation },
                ),
                Some(vs) => spec_build_from(
                    lines,
                    meshes,
                    i + 1,
                    SceneV { commands: st.commands, vars: vs },
                ),
            },
            LineActionV::Fail(k) => Err(LoadError { line: i as usize, kind: k }),
        }
    }
}

/// The scene a line sequence loads to.
pub open spec fn spec_build(lines: Seq<LineV>, meshes: Seq<MeshFileV>) -> Result<
    SceneV,
    LoadError,
> {
    spec_build_from(
        lines,
        meshes,
        0,
        SceneV { commands: Seq::empty(), vars: Seq::empty() },
    )
}

/// Every list of the variable table is well-formed: windows well-formed,
/// in non-decreasing start order, pairwise non-overlapping.
pub open spec fn table_ok(vars: Seq<VarAnimsV>) -> bool {
    forall|v: int| 0 <= v < vars.len() ==> anims_ok(#[trigger] vars[v].anims)
}

/// A found table entry lies within the table.
proof fn lemma_var_idx_v_in_range(vars: Seq<VarAnimsV>, name: Seq<u8>)
    ensures
        match var_idx_v(vars, name) {
            None => true,
            Some(j) => 0 <= j < vars.len(),
        },
    decreases vars.len(),
{
    if vars.len() > 0 && vars[0].name != name {
        lemma_var_idx_v_in_range(vars.drop_first(), name);
    }
}

/// Registering a well-formed window keeps every list of the table
/// well-formed.
proof fn lemma_add_anim_v_preserves_table(vars: Seq<VarAnimsV>, name: Seq<u8>, a: Animation)
    requires
        anim_wf(a),
        table_ok(vars),
    ensures
        match spec_add_anim_v(vars, name, a) {
            None => true,
            Some(vs) => table_ok(vs),
        },
{
    lemma_var_idx_v_in_range(vars, name);
    match var_idx_v(vars, name) {
        None => {
            let vs = vars.push(VarAnimsV { name: name, anims: seq![a] });
            assert forall|v: int| 0 <= v < vs.len() implies anims_ok(#[trigger] vs[v].anims) by {
                if v < vars.len() {
                    assert(vs[v] == vars[v]);
                } else {
                    assert(vs[v].anims =~= seq![a]);
                    assert(vs[v].anims[0] == a);
                }
            }
        },
        Some(j) => {
            lemma_insert_anim_preserves_order(vars[j].anims, a);
            match spec_insert_anim(vars[j].anims, a) {
                None => {},
                Some(s) => {
                    let vs = vars.update(j, VarAnimsV { name: vars[j].name, anims: s });
                    assert forall|v: int| 0 <= v < vs.len() implies anims_ok(
                        #[trigger] vs[v].anims,
                    ) by {
                        if v != j {
                            assert(vs[v] == vars[v]);
                        }
                    }
                },
            }
        },
    }
}

/// Every animation a line registers has a well-formed window: the loader
/// refuses reversed windows before registration.
proof fn lemma_parse_line_anim_wf(l: LineV, meshes: Seq<MeshFileV>)
    ensures
        match spec_parse_line(l, meshes) {
            LineActionV::Anim(_, a) => anim_wf(a),
            _ => true,
        },
{
}

/// The loading fold keeps every list of the variable table well-formed.
proof fn lemma_build_from_table_ok(lines: Seq<LineV>, meshes: Seq<MeshFileV>, i: int, st: SceneV)
    requires
        table_ok(st.vars),
    ensures
        match spec_build_from(lines, meshes, i, st) {
            Ok(sv) => table_ok(sv.vars),
            Err(_) => true,
        },
    decreases lines.len() - i,
{
    if 0 <= i < lines.len() {
        match spec_parse_line(lines[i], meshes) {
            LineActionV::Skip => {
                lemma_build_from_table_ok(lines, meshes, i + 1, st);
            },
            LineActionV::Cmd(c) => {
                lemma_build_from_table_ok(
                    lines,
                    meshes,
                    i + 1,
                    SceneV { commands: st.commands.push(c), vars: st.vars },
                );
            },
            LineActionV::Anim(name, a) => {
                lemma_parse_line_anim_wf(lines[i], meshes);
                lemma_add_anim_v_preserves_table(st.vars, name, a);
                match spec_add_anim_v(st.vars, name, a) {
                    None => {},
                    Some(vs) => {
                        lemma_build_from_table_ok(
                            lines,
                            meshes,
                            i + 1,
                            SceneV { commands: st.commands, vars: vs },
                        );
                    },
                }
            },
            LineActionV::Fail(_) => {},
        }
    }
}

/// Law: a successfully loaded scene's variable table is well-formed — for
/// every variable, the windows are well-formed, stored in non-decreasing
/// start order, and pairwise non-overlapping.
pub proof fn lemma_build_scene_table_ok(lines: Seq<LineV>, meshes: Seq<MeshFileV>)
    ensures
        match spec_build(lines, meshes) {
            Ok(sv) => table_ok(sv.vars),
            Err(_) => true,
        },
{
    lemma_build_from_table_ok(
        lines,
        meshes,
        0,
        SceneV { commands: Seq::empty(), vars: Seq::empty() },
    );
}

/// Builds a scene from pre-lexed lines and the mesh sub-files they name.
/// Errors identify the offending line; no partial scene is ever returned,
/// and a returned scene's variable table is well-formed.
pub fn build_scene(lines: &Vec<TextLine>, meshes: &Vec<MeshFile>) -> (r: Result<Scene, LoadError>)
    ensures
        match r {
            Ok(s) => spec_build(lines_view(lines@), mesh_files_view(meshes@)) == Ok::<
                _,
                LoadError,
            >(scene_view(s)) && table_ok(vars_view(s.vars@)),
            Err(e) => spec_build(lines_view(lines@), mesh_files_view(meshes@)) == Err::<
                SceneV,
                _,
            >(e),
        },
{
    proof {
        lemma_build_scene_table_ok(lines_view(lines@), mesh_files_view(meshes@));
    }
    let ghost lv = lines_view(lines@);
    let ghost mv = mesh_files_view(meshes@);
    let mut commands: Vec<Command> = Vec::new();
    let mut vars: Vec<VarAnims> = Vec::new();
    let n = lines.len();
    proof {
        assert(commands@.map_values(|c: Command| cmd_view(c)) =~= Seq::<CommandV>::empty());
        assert(vars_view(vars@) =~= Seq::<VarAnimsV>::empty());
    }
    let mut i: usize = 0;
    while i < n
        invariant
            i <= n,
            n == lines@.len(),
            lv == lines_view(lines@),
            mv == mesh_files_view(meshes@),
            spec_build(lv, mv) == spec_build_from(
                lv,
                mv,
                i as int,
                SceneV {
                    commands: commands@.map_values(|c: Command| cmd_view(c)),
                    vars: vars_view(vars@),
                },
            ),
        decreases n - i,
    {
        proof {
            assert(lv[i as int] == line_view(lines@[i as int]));
        }
        let act = parse_line(&lines[i], meshes);
        match act {
            LineAction::Skip => {},
            LineAction::Cmd(c) => {
                let ghost cs_old = commands@.map_values(|c: Command| cmd_view(c));
                let ghost c_v = cmd_view(c);
                commands.push(c);
                proof {
                    assert(commands@.map_values(|c: Command| cmd_view(c)) =~= cs_old.push(c_v));
                }
            },
            LineAction::Anim(name, a) => {
                match add_animation(&mut vars, name, a) {
                    Ok(()) => {},
                    Err(()) => {
                        return Err(
                            LoadError { line: i, kind: LoadErrorKind::OverlappingAnimation },
                        );
                    },
                }
            },
            LineAction::Fail(k) => {
                return Err(LoadError { line: i, kind: k });
            },
        }
        i = i + 1;
    }
    Ok(Scene { commands, vars })
}

/// The mesh-file paths a scene names: one for each line that parses as a
/// well-quoted mesh command.
pub open spec fn spec_mesh_paths(lines: Seq<LineV>) -> Seq<Seq<u8>>
    decreases lines.len(),
{
    if lines.len() == 0 {
        Seq::empty()
    } else {
        let l = lines[0];
        let tail = spec_mesh_paths(lines.drop_first());
        if l.toks.len() == 2 && !(l.toks[0].text.len() > 0 && l.toks[0].text[0] == 35)
            && spec_keyword(l.toks[0].text) == Kw::Mesh && spec_strip_path(l.toks[1].text)
            is Some {
            seq![spec_strip_path(l.toks[1].text).unwrap()] + tail
        } else {
            tail
        }
    }
}

/// Lists the mesh-file paths a scene names, so the caller can read those
/// files before building the scene.
pub fn mesh_paths(lines: &Vec<TextLine>) -> (r: Vec<Vec<u8>>)
    ensures
        r@.map_values(|p: Vec<u8>| p@) == spec_mesh_paths(lines_view(lines@)),
{
    let ghost lv = lines_view(lines@);
    let mut out: Vec<Vec<u8>> = Vec::new();
    let n = lines.len();
    proof {
        assert(lv.skip(0) =~= lv);
        assert(out@.map_values(|p: Vec<u8>| p@) + spec_mesh_paths(lv) =~= spec_mesh_paths(lv));
    }
    let mut i: usize = 0;
    while i < n
        invariant
            i <= n,
            n == lines@.len(),
            lv == lines_view(lines@),
            spec_mesh_paths(lv) == out@.map_values(|p: Vec<u8>| p@) + spec_mesh_paths(
                lv.skip(i as int),
            ),
        decreases n - i,
    {
        let ghost rest = lv.skip(i as int);
        proof {
            assert(rest[0] == lv[i as int]);
            assert(lv[i as int] == line_view(lines@[i as int]));
            assert(rest.drop_first() =~= lv.skip(i as int + 1));
        }
        let l = &lines[i];
        if l.toks.len() == 2 {
            proof {
                assert(rest[0].toks[0] == token_view(l.toks@[0]));
                assert(rest[0].toks[1] == token_view(l.toks@[1]));
            }
            let is_comment = l.toks[0].text.len() > 0 && l.toks[0].text[0] == 35;
            if !is_comment {
                match keyword_of(&l.toks[0].text) {
                    Kw::Mesh => {
                        match strip_path(&l.toks[1].text) {
                            Some(p) => {
                                let ghost out_old = out@.map_values(|p: Vec<u8>| p@);
                                let ghost p_v = p@;
                                out.push(p);
                                proof {
                                    assert(out@.map_values(|p: Vec<u8>| p@) =~= out_old.push(
                                        p_v,
                                    ));
                                    assert(out_old.push(p_v) + spec_mesh_paths(rest.drop_first())
                                        =~= out_old + (seq![p_v] + spec_mesh_paths(
                                        rest.drop_first(),
                                    )));
                                }
                            },
                            None => {},
                        }
                    },
                    _ => {},
                }
            }
        }
        i = i + 1;
    }
    proof {
        assert(lv.skip(n as int) =~= Seq::<LineV>::empty());
        assert(out@.map_values(|p: Vec<u8>| p@) + Seq::<Seq<u8>>::empty() =~= out@.map_values(
            |p: Vec<u8>| p@,
        ));
    }
    out
}

} // verus!
