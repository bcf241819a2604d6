use edit0r::Face;
use edit0r::FaceColor;
use edit0r::Faces;
use edit0r::Global;
use edit0r::RustMode;
use edit0r::TextContent;
use edit0r::TextMode;
use edit0r::highlight::apply_captures;
use edit0r::highlight::role_face_id;
use edit0r::highlight::CaptureSpan;
use edit0r::segment::coalesce;
use edit0r::segment::Run;

fn rgb(r: u8, g: u8, b: u8) -> Face {
    Face { fg: FaceColor::Rgb(r, g, b), bg: FaceColor::Rgb(0, 0, 0) }
}

fn cap(row: usize, col_start: usize, col_end: usize, name: &str) -> CaptureSpan {
    CaptureSpan { row, col_start, col_end, name: name.to_string() }
}

#[test]
fn unknown_role_resolves_to_default_id() {
    let mut faces = Faces::new();
    faces.put_face("default".to_string(), Face::default());
    faces.put_face("keyword".to_string(), rgb(255, 0, 0));
    assert_eq!(role_face_id(&faces, &"totally.unknown".to_string()), 0);
}

#[test]
fn function_roles_share_one_face() {
    let mut faces = Faces::new();
    faces.put_face("default".to_string(), Face::default());
    let fun = faces.put_face("function".to_string(), rgb(0, 255, 0));
    assert_eq!(role_face_id(&faces, &"function".to_string()), fun);
    assert_eq!(role_face_id(&faces, &"function.method".to_string()), fun);
    assert_eq!(role_face_id(&faces, &"function.macro".to_string()), fun);
}

#[test]
fn grid_starts_all_default_and_in_lockstep() {
    let content = TextContent::new(vec!["abc".to_string(), "".to_string(), "hello".to_string()]);
    assert!(content.invariant_holds());
    assert_eq!(content.line_count(), 3);
    assert_eq!(content.face_row(0).len(), 3);
    assert_eq!(content.face_row(1).len(), 0);
    assert_eq!(content.face_row(2).len(), 5);
    for row in 0..content.line_count() {
        for &id in content.face_row(row).iter() {
            assert_eq!(id, 0);
        }
    }
}

#[test]
fn set_range_clamps_instead_of_failing() {
    let mut content = TextContent::new(vec!["abcd".to_string()]);
    // A row past the grid is a no-op.
    content.set_range(5, 0, 2, 1);
    assert_eq!(content.face_row(0), &vec![0, 0, 0, 0]);
    // Columns past the line are clamped.
    content.set_range(0, 2, 100, 1);
    assert_eq!(content.face_row(0), &vec![0, 0, 1, 1]);
    assert!(content.invariant_holds());
}

#[test]
fn later_capture_wins_at_shared_cells() {
    let mut faces = Faces::new();
    faces.put_face("default".to_string(), Face::default());
    faces.put_face("keyword".to_string(), rgb(255, 0, 0));
    faces.put_face("comment".to_string(), rgb(150, 150, 150));
    let kw = faces.get_face_id(&"keyword".to_string()).unwrap();
    let com = faces.get_face_id(&"comment".to_string()).unwrap();
    let mut content = TextContent::new(vec!["abcdef".to_string()]);
    let caps = vec![cap(0, 0, 4, "keyword"), cap(0, 2, 6, "comment")];
    apply_captures(&mut content, &faces, &caps);
    assert_eq!(content.face_row(0), &vec![kw, kw, com, com, com, com]);
}

#[test]
fn overlay_line_coalesces_to_expected_runs() {
    // A 17-column line with a keyword at [0,3) and a comment at [11,17),
    // everything else left at the default face.
    let mut faces = Faces::new();
    faces.put_face("default".to_string(), Face::default());
    faces.put_face("filler".to_string(), rgb(1, 2, 3));
    let kw = faces.put_face("keyword".to_string(), rgb(255, 0, 0));
    let com = faces.put_face("comment".to_string(), rgb(150, 150, 150));
    assert_eq!((kw, com), (2, 3));
    let mut content = TextContent::new(vec!["let x = 55; // hi".to_string()]);
    assert_eq!(content.face_row(0).len(), 17);
    let caps = vec![cap(0, 0, 3, "keyword"), cap(0, 11, 17, "comment")];
    apply_captures(&mut content, &faces, &caps);
    let runs = coalesce(content.face_row(0));
    assert_eq!(
        runs,
        vec![
            Run { face_id: 2, start: 0, len: 3 },
            Run { face_id: 0, start: 3, len: 8 },
            Run { face_id: 3, start: 11, len: 6 },
        ]
    );
}

#[test]
fn empty_buffer_highlights_to_zero_rows() {
    let mut faces = Faces::new();
    faces.put_face("default".to_string(), Face::default());
    let mut global = Global { faces };
    let mut content = TextContent::new(Vec::new());
    let mut modes = vec![RustMode::new()];
    TextMode {}.highlight(&mut global, &mut content, &mut modes);
    assert!(content.invariant_holds());
    assert_eq!(content.line_count(), 0);
    // Zero rows: the render loop below would issue zero draw calls.
    let mut draw_calls: usize = 0;
    for _row in 0..content.line_count() {
        draw_calls += 1;
    }
    assert_eq!(draw_calls, 0);
}

#[test]
fn rust_mode_highlights_keywords_and_functions() {
    let mut faces = Faces::new();
    faces.put_face("default".to_string(), Face::default());
    faces.load_theme_faces(vec![
        ("keyword".to_string(), rgb(255, 0, 0)),
        ("function".to_string(), rgb(0, 255, 0)),
        ("comment".to_string(), rgb(150, 150, 150)),
    ]);
    let kw = faces.get_face_id(&"keyword".to_string()).unwrap();
    let fun = faces.get_face_id(&"function".to_string()).unwrap();
    let mut global = Global { faces };
    let mut content = TextContent::new(vec!["fn main() {}".to_string()]);
    let mut modes = vec![RustMode::new()];
    TextMode {}.highlight(&mut global, &mut content, &mut modes);
    assert!(content.invariant_holds());
    let row = content.face_row(0);
    // "fn" is a keyword ...
    assert_eq!(row[0], kw);
    assert_eq!(row[1], kw);
    // ... and "main" is a function name.
    assert_eq!(row[3], fun);
    assert_eq!(row[4], fun);
    assert_eq!(row[5], fun);
    assert_eq!(row[6], fun);
}

#[test]
fn highlight_pass_leaves_text_alone() {
    let mut faces = Faces::new();
    faces.put_face("default".to_string(), Face::default());
    let mut global = Global { faces };
    let text = vec!["fn main() {}".to_string(), "// trailing".to_string()];
    let mut content = TextContent::new(text.clone());
    let mut modes = vec![RustMode::new()];
    TextMode {}.highlight(&mut global, &mut content, &mut modes);
    assert_eq!(content.line_count(), 2);
    assert_eq!(content.line(0), &text[0]);
    assert_eq!(content.line(1), &text[1]);
    assert!(content.invariant_holds());
}

#[test]
fn rust_mode_comment_line() {
    let mut faces = Faces::new();
    faces.put_face("default".to_string(), Face::default());
    faces.load_theme_faces(vec![
        ("keyword".to_string(), rgb(255, 0, 0)),
        ("function".to_string(), rgb(0, 255, 0)),
        ("comment".to_string(), rgb(150, 150, 150)),
    ]);
    let com = faces.get_face_id(&"comment".to_string()).unwrap();
    let mut content = TextContent::new(vec!["// hi".to_string()]);
    let mode = RustMode::new();
    mode.apply(&faces, &mut content);
    assert!(content.invariant_holds());
    let row = content.face_row(0);
    assert_eq!(row, &vec![com, com, com, com, com]);
}
