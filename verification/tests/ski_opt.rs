use egg::{Id, RecExpr};
use ski_pass::ski_opt::ski_lang::{add_ski_opt_node, can_parse_skp, new_ski_opt_expr, parse_skp, SkiLang};
use ski_pass::ski_opt::skpicture::{generate_skpicture, try_generate_skpicture, SkDrawCommand, SkPaint, SurfaceType};

fn rect(l: i32, t: i32, r: i32, b: i32, color: [u8; 4]) -> SkDrawCommand {
    SkDrawCommand::DrawRect { coords: vec![l, t, r, b], paint: SkPaint { color: color.to_vec() }, visible: true }
}

fn save_layer() -> SkDrawCommand {
    SkDrawCommand::SaveLayer { paint: None, visible: true }
}

fn restore() -> SkDrawCommand {
    SkDrawCommand::Restore { visible: true }
}

fn show(e: &RecExpr<SkiLang>, id: Id) -> String {
    match &e[id] {
        SkiLang::Num(n) => n.to_string(),
        SkiLang::Point(i) => format!("(point {} {})", show(e, i[0]), show(e, i[1])),
        SkiLang::Dim(i) => format!("(dimensions {} {})", show(e, i[0]), show(e, i[1])),
        SkiLang::Color(i) => format!(
            "(color {} {} {} {})",
            show(e, i[0]),
            show(e, i[1]),
            show(e, i[2]),
            show(e, i[3])
        ),
        SkiLang::Paint(i) => format!("(paint {})", show(e, i[0])),
        SkiLang::Blank => "blank".to_string(),
        SkiLang::SrcOver(i) => format!("(srcOver {} {})", show(e, i[0]), show(e, i[1])),
        SkiLang::DrawRect(i) => format!("(drawRect {} {} {})", show(e, i[0]), show(e, i[1]), show(e, i[2])),
    }
}

fn readme_commands() -> Vec<SkDrawCommand> {
    vec![
        rect(10, 70, 60, 120, [255, 255, 0, 0]),
        rect(150, 70, 200, 120, [255, 255, 0, 0]),
        SkDrawCommand::SaveLayer { paint: Some(SkPaint { color: vec![77, 0, 0, 0] }), visible: true },
        rect(30, 70, 80, 120, [255, 0, 0, 255]),
        rect(170, 70, 220, 120, [77, 0, 0, 255]),
        restore(),
    ]
}

#[test]
fn readme_picture_parses_into_nested_source_overs() {
    let cmds = readme_commands();
    assert!(can_parse_skp(&cmds));
    let r = parse_skp(&cmds);
    let r1 = "(drawRect (point 10 70) (point 60 120) (paint (color 255 255 0 0)))";
    let r2 = "(drawRect (point 150 70) (point 200 120) (paint (color 255 255 0 0)))";
    let r3 = "(drawRect (point 30 70) (point 80 120) (paint (color 255 0 0 255)))";
    let r4 = "(drawRect (point 170 70) (point 220 120) (paint (color 77 0 0 255)))";
    assert_eq!(
        show(&r.expr, r.id),
        format!("(srcOver (srcOver (srcOver blank {}) {}) (srcOver (srcOver blank {}) {}))", r1, r2, r3, r4)
    );
}

#[test]
fn readme_picture_is_written_back_with_a_layer() {
    let cmds = readme_commands();
    let r = parse_skp(&cmds);
    let p = generate_skpicture(&r.expr, r.id);
    assert!(matches!(p.surfaceType, Some(SurfaceType::Allocated)));
    let expected = vec![
        rect(10, 70, 60, 120, [255, 255, 0, 0]),
        rect(150, 70, 200, 120, [255, 255, 0, 0]),
        save_layer(),
        rect(30, 70, 80, 120, [255, 0, 0, 255]),
        rect(170, 70, 220, 120, [77, 0, 0, 255]),
        restore(),
    ];
    assert_eq!(format!("{:?}", p.drawCommands), format!("{:?}", expected));
}

#[test]
fn plain_rectangles_round_trip() {
    let cmds = vec![rect(0, 0, 1, 1, [1, 2, 3, 4]), rect(-5, 6, 7, 8, [255, 0, 128, 9])];
    let r = parse_skp(&cmds);
    let p = generate_skpicture(&r.expr, r.id);
    assert_eq!(format!("{:?}", p.drawCommands), format!("{:?}", cmds));
}

#[test]
fn empty_picture_is_blank() {
    let r = parse_skp(&vec![]);
    assert_eq!(show(&r.expr, r.id), "blank");
    let p = generate_skpicture(&r.expr, r.id);
    assert!(p.drawCommands.is_empty());
    assert!(matches!(p.surfaceType, Some(SurfaceType::Allocated)));
}

#[test]
fn lone_rectangle_is_abstract() {
    let mut e = new_ski_opt_expr();
    let x = add_ski_opt_node(&mut e, SkiLang::Num(1));
    let y = add_ski_opt_node(&mut e, SkiLang::Num(2));
    let p = add_ski_opt_node(&mut e, SkiLang::Point([x, y]));
    let c = add_ski_opt_node(&mut e, SkiLang::Color([x, y, x, y]));
    let paint = add_ski_opt_node(&mut e, SkiLang::Paint([c]));
    let d = add_ski_opt_node(&mut e, SkiLang::DrawRect([p, p, paint]));
    let pic = generate_skpicture(&e, d);
    assert!(matches!(pic.surfaceType, Some(SurfaceType::Abstract)));
    assert_eq!(format!("{:?}", pic.drawCommands), format!("{:?}", vec![rect(1, 2, 1, 2, [1, 2, 1, 2])]));
}

#[test]
fn color_channels_are_truncated_to_bytes() {
    let mut e = new_ski_opt_expr();
    let x = add_ski_opt_node(&mut e, SkiLang::Num(300));
    let p = add_ski_opt_node(&mut e, SkiLang::Point([x, x]));
    let c = add_ski_opt_node(&mut e, SkiLang::Color([x, x, x, x]));
    let paint = add_ski_opt_node(&mut e, SkiLang::Paint([c]));
    let d = add_ski_opt_node(&mut e, SkiLang::DrawRect([p, p, paint]));
    let pic = generate_skpicture(&e, d);
    assert_eq!(format!("{:?}", pic.drawCommands), format!("{:?}", vec![rect(300, 300, 300, 300, [44, 44, 44, 44])]));
}

#[test]
fn short_rectangles_cannot_be_parsed() {
    let short_coords = vec![SkDrawCommand::DrawRect {
        coords: vec![1, 2, 3],
        paint: SkPaint { color: vec![1, 2, 3, 4] },
        visible: true,
    }];
    assert!(!can_parse_skp(&short_coords));
    let short_color = vec![save_layer(), SkDrawCommand::DrawRect {
        coords: vec![1, 2, 3, 4],
        paint: SkPaint { color: vec![1, 2, 3] },
        visible: true,
    }];
    assert!(!can_parse_skp(&short_color));
    assert!(can_parse_skp(&vec![save_layer(), restore()]));
}

#[test]
fn numbers_alone_are_not_pictures() {
    let mut e = new_ski_opt_expr();
    let x = add_ski_opt_node(&mut e, SkiLang::Num(1));
    assert!(try_generate_skpicture(&e, x).is_none());
    let p = add_ski_opt_node(&mut e, SkiLang::Point([x, x]));
    let bad = add_ski_opt_node(&mut e, SkiLang::DrawRect([p, p, x]));
    assert!(try_generate_skpicture(&e, bad).is_none());
}

#[test]
fn restore_closes_the_layer() {
    let a = rect(0, 0, 10, 10, [255, 0, 0, 0]);
    let b = rect(5, 5, 20, 20, [255, 0, 0, 0]);
    let cmds = vec![save_layer(), a, restore(), b];
    let r = parse_skp(&cmds);
    let ta = "(drawRect (point 0 0) (point 10 10) (paint (color 255 0 0 0)))";
    let tb = "(drawRect (point 5 5) (point 20 20) (paint (color 255 0 0 0)))";
    assert_eq!(show(&r.expr, r.id), format!("(srcOver (srcOver blank (srcOver blank {})) {})", ta, tb));
    let p = generate_skpicture(&r.expr, r.id);
    assert_eq!(
        format!("{:?}", p.drawCommands),
        format!("{:?}", vec![save_layer(), rect(0, 0, 10, 10, [255, 0, 0, 0]), restore(), rect(5, 5, 20, 20, [255, 0, 0, 0])])
    );
}

#[test]
fn restore_without_a_layer_is_skipped() {
    let cmds = vec![restore(), rect(1, 2, 3, 4, [9, 8, 7, 6])];
    let r = parse_skp(&cmds);
    assert_eq!(
        show(&r.expr, r.id),
        "(srcOver blank (drawRect (point 1 2) (point 3 4) (paint (color 9 8 7 6))))"
    );
    let bad = vec![save_layer(), restore(), SkDrawCommand::DrawRect {
        coords: vec![1, 2, 3],
        paint: SkPaint { color: vec![1, 2, 3, 4] },
        visible: true,
    }];
    assert!(!can_parse_skp(&bad));
}
