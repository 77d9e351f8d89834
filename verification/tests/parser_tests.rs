use tinyrender::data::Color;
use tinyrender::parser::{
    build_scene, keyword_of, mesh_paths, parse_u8_bytes, split_ws, strip_path, Kw, LoadError,
    LoadErrorKind, MeshFile, TextLine, Token,
};
use tinyrender::scene::{Animation, Command, EvalOutcome, Val};

/// The lexing the scene reader performs: the library's tokenization, each
/// token tagged with its bit pattern when it reads as a float literal.
fn lex_line(s: &str) -> TextLine {
    let raw = s.as_bytes().to_vec();
    let toks = split_ws(&raw)
        .into_iter()
        .map(|text| {
            let num = std::str::from_utf8(&text)
                .ok()
                .and_then(|w| w.parse::<f32>().ok())
                .map(|f| f.to_bits());
            Token { text, num }
        })
        .collect();
    TextLine { raw, toks }
}

fn lex(text: &str) -> Vec<TextLine> {
    text.lines().map(lex_line).collect()
}

fn load(text: &str) -> Result<tinyrender::scene::Scene, LoadError> {
    build_scene(&lex(text), &vec![])
}

fn b(x: f32) -> u32 {
    x.to_bits()
}

#[test]
fn parses_a_point_command_with_literals() {
    let s = load("point 1 2 3 4").unwrap();
    assert_eq!(s.commands.len(), 1);
    match &s.commands[0] {
        Command::Point { p, rad } => {
            assert!(matches!(p.x, Val::Raw(v) if v == b(1.0)));
            assert!(matches!(p.y, Val::Raw(v) if v == b(2.0)));
            assert!(matches!(p.z, Val::Raw(v) if v == b(3.0)));
            assert!(matches!(rad, Val::Raw(v) if *v == b(4.0)));
        }
        other => panic!("expected a point command, got {:?}", other),
    }
}

#[test]
fn non_numeric_token_becomes_a_variable_reference() {
    let s = load("point x 2 3 4").unwrap();
    match &s.commands[0] {
        Command::Point { p, .. } => {
            assert!(matches!(&p.x, Val::Var(n) if n == b"x"));
        }
        other => panic!("expected a point command, got {:?}", other),
    }
}

#[test]
fn keywords_are_case_insensitive() {
    let s = load("PoInT 1 2 3 4\nIDENTITY\ntRiAnGlE 1 2 3 4 5 6 7 8 9").unwrap();
    assert_eq!(s.commands.len(), 3);
    assert!(matches!(s.commands[1], Command::Identity));
    assert!(matches!(s.commands[2], Command::Triangle(..)));
}

#[test]
fn blank_and_comment_lines_are_skipped() {
    let s = load("\n   \n# a comment\n#another\nidentity\n").unwrap();
    assert_eq!(s.commands.len(), 1);
}

#[test]
fn line_with_wrong_arg_count_fails_identifying_the_line() {
    let e = load("identity\n\nline 1 2 3").unwrap_err();
    assert_eq!(e.line, 2);
    assert_eq!(e.kind, LoadErrorKind::WrongArgCount { expected: 6, found: 3 });
}

#[test]
fn unknown_keyword_fails_with_its_line() {
    let e = load("identity\nfrobnicate 1 2").unwrap_err();
    assert_eq!(e.line, 1);
    assert_eq!(e.kind, LoadErrorKind::UnknownCommand);
}

#[test]
fn color_takes_three_bytes() {
    let s = load("color 255 0 128").unwrap();
    match &s.commands[0] {
        Command::Color(c) => assert_eq!(*c, Color { r: 255, g: 0, b: 128 }),
        other => panic!("expected a color command, got {:?}", other),
    }
    let e = load("color 256 0 0").unwrap_err();
    assert_eq!(e.kind, LoadErrorKind::BadByte);
    let e = load("color 1 2").unwrap_err();
    assert_eq!(e.kind, LoadErrorKind::WrongArgCount { expected: 3, found: 2 });
}

#[test]
fn transform_commands_parse() {
    let s = load("translate 1 2 3\nscale 2 2 1\nrotate 0.5 0 0 1\nidentity").unwrap();
    assert!(matches!(s.commands[0], Command::Translate(..)));
    assert!(matches!(s.commands[1], Command::Scale(..)));
    assert!(matches!(s.commands[2], Command::Rotate { .. }));
    assert!(matches!(s.commands[3], Command::Identity));
}

#[test]
fn animate_registers_a_window_without_emitting_a_command() {
    let s = load("animate v 0 10 0 10").unwrap();
    assert_eq!(s.commands.len(), 0);
    assert_eq!(s.vars.len(), 1);
    assert_eq!(s.vars[0].name, b"v".to_vec());
    assert_eq!(
        s.vars[0].anims,
        vec![Animation { from: b(0.0), to: b(10.0), t1: b(0.0), t2: b(10.0) }]
    );
}

#[test]
fn touching_animations_load_and_evaluate() {
    let s = load("animate v 0 5 0 5\nanimate v 5 10 5 10").unwrap();
    assert_eq!(s.vars[0].anims.len(), 2);
    let r = s.eval_at(b(7.5), &Val::Var(b"v".to_vec()));
    match r {
        Ok(EvalOutcome::Interp(a)) => assert_eq!(a.t1, b(5.0)),
        other => panic!("expected the second window, got {:?}", other),
    }
}

#[test]
fn overlapping_animation_fails_on_its_line() {
    let e = load("animate v 0 1 0 5\nanimate v 0 1 3 8").unwrap_err();
    assert_eq!(e.line, 1);
    assert_eq!(e.kind, LoadErrorKind::OverlappingAnimation);
}

#[test]
fn split_ws_takes_maximal_nonblank_runs() {
    let toks = split_ws(&b"  point  1\t2 \r\n".to_vec());
    assert_eq!(toks, vec![b"point".to_vec(), b"1".to_vec(), b"2".to_vec()]);
    assert_eq!(split_ws(&b"".to_vec()), Vec::<Vec<u8>>::new());
    assert_eq!(split_ws(&b"   ".to_vec()), Vec::<Vec<u8>>::new());
    assert_eq!(split_ws(&b"one".to_vec()), vec![b"one".to_vec()]);
}

#[test]
fn reversed_animation_window_is_rejected_at_load() {
    let e = load("animate v 0 10 10 5").unwrap_err();
    assert_eq!(e.line, 0);
    assert_eq!(e.kind, LoadErrorKind::ReversedWindow);
    // A single-instant window is not reversed.
    assert!(load("animate v 0 10 5 5").is_ok());
}

#[test]
fn touching_animations_keep_start_order_either_way() {
    let s = load("animate v 5 10 5 10\nanimate v 0 5 0 5").unwrap();
    let anims = &s.vars[0].anims;
    assert_eq!(anims.len(), 2);
    assert_eq!(anims[0].t1, b(0.0));
    assert_eq!(anims[1].t1, b(5.0));
}

#[test]
fn mesh_path_with_whitespace_is_not_representable() {
    let e = build_scene(&lex("mesh \"a b.obj\""), &vec![]).unwrap_err();
    assert_eq!(e.kind, LoadErrorKind::MeshPathNotQuoted);
}

#[test]
fn animate_without_enough_tokens_fails() {
    let e = load("animate v").unwrap_err();
    assert_eq!(e.kind, LoadErrorKind::MissingVarName);
    let e = load("animate v 1 2 3").unwrap_err();
    assert_eq!(e.kind, LoadErrorKind::WrongArgCount { expected: 4, found: 3 });
    let e = load("animate v 1 2 x 4").unwrap_err();
    assert_eq!(e.kind, LoadErrorKind::NotANumber);
}

#[test]
fn parse_u8_accepts_plus_and_leading_zeros() {
    assert_eq!(parse_u8_bytes(&b"007".to_vec()), Some(7));
    assert_eq!(parse_u8_bytes(&b"+5".to_vec()), Some(5));
    assert_eq!(parse_u8_bytes(&b"255".to_vec()), Some(255));
    assert_eq!(parse_u8_bytes(&b"256".to_vec()), None);
    assert_eq!(parse_u8_bytes(&b"99999999999999999999".to_vec()), None);
    assert_eq!(parse_u8_bytes(&b"".to_vec()), None);
    assert_eq!(parse_u8_bytes(&b"+".to_vec()), None);
    assert_eq!(parse_u8_bytes(&b"12a".to_vec()), None);
    assert_eq!(parse_u8_bytes(&b"-1".to_vec()), None);
}

#[test]
fn strip_path_requires_exactly_one_quote_each_side() {
    assert_eq!(strip_path(&b"\"mesh.obj\"".to_vec()), Some(b"mesh.obj".to_vec()));
    assert_eq!(strip_path(&b"\"\"".to_vec()), Some(b"".to_vec()));
    assert_eq!(strip_path(&b"mesh.obj".to_vec()), None);
    assert_eq!(strip_path(&b"\"mesh.obj".to_vec()), None);
    assert_eq!(strip_path(&b"\"\"mesh\"\"".to_vec()), None);
}

#[test]
fn keyword_classifier_matches_the_table() {
    assert_eq!(keyword_of(&b"mesh".to_vec()), Kw::Mesh);
    assert_eq!(keyword_of(&b"TRANSLATE".to_vec()), Kw::Translate);
    assert_eq!(keyword_of(&b"pointy".to_vec()), Kw::Unknown);
    assert_eq!(keyword_of(&b"".to_vec()), Kw::Unknown);
}

fn cube_mesh() -> MeshFile {
    MeshFile {
        path: b"tri.obj".to_vec(),
        lines: lex("points\n0 0 0\n10 0 0\n0 10 0\ntriangles\n0 1 2"),
    }
}

#[test]
fn mesh_command_loads_vertices_and_indices() {
    let s = build_scene(&lex("mesh \"tri.obj\""), &vec![cube_mesh()]).unwrap();
    match &s.commands[0] {
        Command::Mesh { points, triangles } => {
            assert_eq!(points.len(), 3);
            assert_eq!(points[1].x, b(10.0));
            assert_eq!(triangles, &vec![0, 1, 2]);
        }
        other => panic!("expected a mesh command, got {:?}", other),
    }
}

#[test]
fn mesh_errors_are_reported() {
    let e = build_scene(&lex("mesh \"other.obj\""), &vec![cube_mesh()]).unwrap_err();
    assert_eq!(e.kind, LoadErrorKind::MeshFileMissing);

    let e = build_scene(&lex("mesh tri.obj"), &vec![cube_mesh()]).unwrap_err();
    assert_eq!(e.kind, LoadErrorKind::MeshPathNotQuoted);

    let bad = MeshFile { path: b"tri.obj".to_vec(), lines: lex("0 0 0\ntriangles\n0 1 2") };
    let e = build_scene(&lex("mesh \"tri.obj\""), &vec![bad]).unwrap_err();
    assert_eq!(e.kind, LoadErrorKind::MeshMissingPointsHeader);

    let trunc = MeshFile { path: b"tri.obj".to_vec(), lines: lex("points\n0 0 0") };
    let e = build_scene(&lex("mesh \"tri.obj\""), &vec![trunc]).unwrap_err();
    assert_eq!(e.kind, LoadErrorKind::MeshUnexpectedEnd);

    let badv = MeshFile { path: b"tri.obj".to_vec(), lines: lex("points\n0 0\ntriangles") };
    let e = build_scene(&lex("mesh \"tri.obj\""), &vec![badv]).unwrap_err();
    assert_eq!(e.kind, LoadErrorKind::MeshBadVertexLine);

    let badi = MeshFile {
        path: b"tri.obj".to_vec(),
        lines: lex("points\n0 0 0\ntriangles\n0 1 300"),
    };
    let e = build_scene(&lex("mesh \"tri.obj\""), &vec![badi]).unwrap_err();
    assert_eq!(e.kind, LoadErrorKind::MeshBadIndexLine);
}

#[test]
fn mesh_paths_lists_referenced_files() {
    let paths = mesh_paths(&lex("identity\nmesh \"a.obj\"\n# mesh \"c.obj\"\nmesh \"b.obj\""));
    assert_eq!(paths, vec![b"a.obj".to_vec(), b"b.obj".to_vec()]);
}

#[test]
fn first_failing_line_aborts_the_whole_load() {
    let e = load("point 1 2 3 4\nbogus\npoint 1 2 3").unwrap_err();
    assert_eq!(e.line, 1);
    assert_eq!(e.kind, LoadErrorKind::UnknownCommand);
}

#[test]
fn a_full_scene_round_trips_through_the_evaluator() {
    let text = "color 0 255 0\nanimate r 1 3 0 2\npoint 10 10 0 r\nline 0 0 0 20 20 0";
    let s = load(text).unwrap();
    assert_eq!(s.commands.len(), 3);
    match &s.commands[1] {
        Command::Point { rad, .. } => {
            match s.eval_at(b(1.0), rad).unwrap() {
                EvalOutcome::Interp(a) => {
                    assert_eq!(a, Animation { from: b(1.0), to: b(3.0), t1: b(0.0), t2: b(2.0) })
                }
                other => panic!("expected the window, got {:?}", other),
            }
        }
        other => panic!("expected a point command, got {:?}", other),
    }
}
