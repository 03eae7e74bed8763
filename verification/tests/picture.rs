use egg::Language;
use ski_pass::skpicture::{
    add_picture_node, default_color, generate_skpicture, new_picture_expr, try_generate_skpicture, PictureSkiLang, SkBBox, SkDrawCommand,
    SkPaint, SurfaceType,
};

fn f(x: f32) -> u32 {
    x.to_bits()
}

fn rect(l: f32, t: f32, r: f32, b: f32) -> SkDrawCommand {
    SkDrawCommand::DrawRect { coords: vec![f(l), f(t), f(r), f(b)], paint: SkPaint { color: vec![255, 1, 2, 3] }, visible: true }
}

fn oval(l: f32, t: f32, r: f32, b: f32) -> SkDrawCommand {
    SkDrawCommand::DrawOval { coords: vec![f(l), f(t), f(r), f(b)], paint: SkPaint { color: vec![9, 8, 7, 6] }, visible: false }
}

fn bbox(l: f32, t: f32, r: f32, b: f32) -> SkBBox {
    SkBBox { l: f(l), t: f(t), r: f(r), b: f(b) }
}

fn clip(l: f32, t: f32, r: f32, b: f32) -> SkDrawCommand {
    SkDrawCommand::ClipRect { coords: vec![f(l), f(t), f(r), f(b)], visible: true }
}

fn save() -> SkDrawCommand {
    SkDrawCommand::Save { visible: true }
}

fn save_layer() -> SkDrawCommand {
    SkDrawCommand::SaveLayer { paint: None, visible: true }
}

fn restore() -> SkDrawCommand {
    SkDrawCommand::Restore { visible: true }
}

fn same(a: &[SkDrawCommand], b: &[SkDrawCommand]) {
    assert_eq!(format!("{:?}", a), format!("{:?}", b));
}

#[test]
fn default_color_is_opaque_black() {
    assert_eq!(default_color(), vec![255, 0, 0, 0]);
}

#[test]
fn draw_command_is_drawn_as_it_is() {
    let mut e = new_picture_expr();
    let d = add_picture_node(&mut e, PictureSkiLang::DrawCommand(oval(1.0, 2.0, 3.0, 4.0)));
    let p = generate_skpicture(&e, d);
    same(&p.drawCommands, &[oval(1.0, 2.0, 3.0, 4.0)]);
    assert!(matches!(p.surfaceType, Some(SurfaceType::Abstract)));
}

#[test]
fn clip_comes_before_what_it_clips() {
    let mut e = new_picture_expr();
    let d = add_picture_node(&mut e, PictureSkiLang::DrawCommand(rect(0.0, 0.0, 5.0, 5.0)));
    let b = add_picture_node(&mut e, PictureSkiLang::BBox(bbox(1.0, 1.0, 2.5, 2.5)));
    let c = add_picture_node(&mut e, PictureSkiLang::ClipRect([d, b]));
    let p = generate_skpicture(&e, c);
    same(&p.drawCommands, &[clip(1.0, 1.0, 2.5, 2.5), rect(0.0, 0.0, 5.0, 5.0)]);
    assert!(matches!(p.surfaceType, Some(SurfaceType::AbstractWithState)));
}

#[test]
fn clipped_part_of_a_composition_is_saved_and_restored() {
    let mut e = new_picture_expr();
    let blank = add_picture_node(&mut e, PictureSkiLang::Blank);
    let d1 = add_picture_node(&mut e, PictureSkiLang::DrawCommand(rect(0.0, 0.0, 5.0, 5.0)));
    let b = add_picture_node(&mut e, PictureSkiLang::BBox(bbox(1.0, 1.0, 2.0, 2.0)));
    let c = add_picture_node(&mut e, PictureSkiLang::ClipRect([d1, b]));
    let d2 = add_picture_node(&mut e, PictureSkiLang::DrawCommand(rect(6.0, 6.0, 7.0, 7.0)));
    let first = add_picture_node(&mut e, PictureSkiLang::SrcOver([blank, c]));
    let dst_clipped = add_picture_node(&mut e, PictureSkiLang::SrcOver([c, d2]));
    let p = generate_skpicture(&e, first);
    same(&p.drawCommands, &[save(), clip(1.0, 1.0, 2.0, 2.0), rect(0.0, 0.0, 5.0, 5.0), restore()]);
    assert!(matches!(p.surfaceType, Some(SurfaceType::Allocated)));
    let p = generate_skpicture(&e, dst_clipped);
    same(
        &p.drawCommands,
        &[save(), clip(1.0, 1.0, 2.0, 2.0), rect(0.0, 0.0, 5.0, 5.0), restore(), rect(6.0, 6.0, 7.0, 7.0)],
    );
}

#[test]
fn surface_source_is_drawn_in_a_layer() {
    let mut e = new_picture_expr();
    let blank = add_picture_node(&mut e, PictureSkiLang::Blank);
    let d1 = add_picture_node(&mut e, PictureSkiLang::DrawCommand(rect(0.0, 0.0, 1.0, 1.0)));
    let d2 = add_picture_node(&mut e, PictureSkiLang::DrawCommand(rect(2.0, 2.0, 3.0, 3.0)));
    let s1 = add_picture_node(&mut e, PictureSkiLang::SrcOver([blank, d1]));
    let s2 = add_picture_node(&mut e, PictureSkiLang::SrcOver([blank, d2]));
    let top = add_picture_node(&mut e, PictureSkiLang::SrcOver([s1, s2]));
    let p = generate_skpicture(&e, top);
    same(&p.drawCommands, &[rect(0.0, 0.0, 1.0, 1.0), save_layer(), rect(2.0, 2.0, 3.0, 3.0), restore()]);
}

#[test]
fn blank_picture_is_an_empty_surface() {
    let mut e = new_picture_expr();
    let blank = add_picture_node(&mut e, PictureSkiLang::Blank);
    let p = generate_skpicture(&e, blank);
    assert!(p.drawCommands.is_empty());
    assert!(matches!(p.surfaceType, Some(SurfaceType::Allocated)));
}

#[test]
fn bounding_boxes_are_not_pictures() {
    let mut e = new_picture_expr();
    let b = add_picture_node(&mut e, PictureSkiLang::BBox(bbox(0.0, 0.0, 1.0, 1.0)));
    assert!(try_generate_skpicture(&e, b).is_none());
    let d = add_picture_node(&mut e, PictureSkiLang::DrawCommand(rect(0.0, 0.0, 1.0, 1.0)));
    let bad_clip = add_picture_node(&mut e, PictureSkiLang::ClipRect([d, d]));
    assert!(try_generate_skpicture(&e, bad_clip).is_none());
    let bad_over = add_picture_node(&mut e, PictureSkiLang::SrcOver([d, b]));
    assert!(try_generate_skpicture(&e, bad_over).is_none());
}

#[test]
fn nodes_match_by_operator_and_command() {
    let a = PictureSkiLang::DrawCommand(rect(0.0, 0.0, 1.0, 1.0));
    let b = PictureSkiLang::DrawCommand(rect(0.0, 0.0, 1.0, 1.0));
    let c = PictureSkiLang::DrawCommand(rect(0.0, 0.0, 2.0, 1.0));
    assert!(a.matches(&b));
    assert!(!a.matches(&c));
    assert!(!a.matches(&PictureSkiLang::Blank));
    let x = egg::Id::from(3usize);
    let y = egg::Id::from(5usize);
    let mut over = PictureSkiLang::SrcOver([x, y]);
    assert!(over.matches(&PictureSkiLang::SrcOver([y, y])));
    assert_eq!(over.children(), &[x, y]);
    over.children_mut()[0] = y;
    assert!(matches!(over, PictureSkiLang::SrcOver([p, q]) if p == y && q == y));
    assert!(a.children().is_empty());
}
