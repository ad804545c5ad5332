use siege_ui::chat::Chat;
use siege_ui::stats::StatsGfx;
use siege_ui::ui::arena::{Handle, Ui};
use siege_ui::ui::element::{Font, TextColor, TextLine, UiElement, UiImage, UiWindow};
use siege_ui::ui::geom::{AbsRect, Coord, Dim, Point, Rect, RectX, RectY, FRACTION_ONE};
use siege_ui::ui::walk::{NodeInfo, Walker};

fn full_rect() -> Rect {
    Rect::new(
        RectX::LeftRight(Coord::near(0, 0), Coord::far(0, 0)),
        RectY::TopBottom(Coord::near(0, 0), Coord::far(0, 0)),
    )
}

fn window(rect: Rect, child_alpha: u8) -> UiElement {
    UiElement::Window(UiWindow::new(rect, [0, 0, 0, 255], child_alpha))
}

fn text(x: i32, y: i32, alpha: u8, s: &str) -> UiElement {
    UiElement::Text(TextLine {
        ui_coordinates: Point { x: Coord::near(0, x), y: Coord::near(0, y) },
        lineheight: 10,
        color: TextColor::White,
        outline: None,
        font: Font::Main,
        alpha,
        text: s.to_owned(),
    })
}

fn position(nodes: &[NodeInfo], h: Handle) -> usize {
    nodes.iter().position(|n| n.handle == h).unwrap()
}

#[test]
fn resolve_crops_to_parent() {
    let parent = AbsRect { x: 10, y: 20, width: 100, height: 50 };
    let r = Rect::new(
        RectX::LeftWidth(Coord::near(0, -30), Dim::new(0, 500)),
        RectY::TopHeight(Coord::near(0, 5), Dim::new(0, 10)),
    );
    let a = r.absolute(&parent);
    assert_eq!(a, AbsRect { x: 10, y: 25, width: 100, height: 10 });
    assert!(a.x >= parent.x && a.x + a.width <= parent.x + parent.width);
    assert!(a.y >= parent.y && a.y + a.height <= parent.y + parent.height);
}

#[test]
fn resolve_fractions_and_far_anchor() {
    let parent = AbsRect { x: 100, y: 0, width: 200, height: 80 };
    let half = FRACTION_ONE / 2;
    let r = Rect::new(
        RectX::RightWidth(Coord::far(0, -10), Dim::new(half, 0)),
        RectY::BottomHeight(Coord::far(0, 0), Dim::new(FRACTION_ONE / 4, 0)),
    );
    assert_eq!(r.absolute(&parent), AbsRect { x: 190, y: 60, width: 100, height: 20 });
}

#[test]
fn resolve_child_beyond_parent_is_empty() {
    let parent = AbsRect { x: 0, y: 0, width: 50, height: 50 };
    let r = Rect::new(
        RectX::LeftWidth(Coord::near(0, 80), Dim::new(0, 10)),
        RectY::TopHeight(Coord::near(0, 0), Dim::new(0, -5)),
    );
    assert_eq!(r.absolute(&parent), AbsRect { x: 50, y: 0, width: 0, height: 0 });
}

#[test]
fn rounding_of_negative_fractions() {
    let parent = AbsRect { x: 0, y: 0, width: 3, height: 3 };
    let d = Dim::new(-FRACTION_ONE / 2, 0);
    assert_eq!(d.absolute_xdim(&parent), -2);
    let c = Coord::far(-FRACTION_ONE / 2, 1);
    assert_eq!(c.absolute_xpoint(&parent), 3 - 2 + 1);
}

#[test]
fn add_element_missing_parent_gives_back_the_handle() {
    let mut ui = Ui::new();
    let a = ui.add_element(window(full_rect(), 255), None).unwrap();
    assert_eq!(a, Handle(1));
    assert_eq!(ui.add_element(window(full_rect(), 255), Some(Handle(7))), None);
    let b = ui.add_element(window(full_rect(), 255), Some(a)).unwrap();
    assert_eq!(b, Handle(2));
    assert_eq!(ui.get_children(a).unwrap(), vec![b]);
    assert!(ui.get_children(Handle(9)).is_none());
}

#[test]
fn dirty_flags_follow_categories() {
    let mut ui = Ui::new();
    assert!(ui.is_text_dirty() && ui.is_win_dirty() && ui.is_image_dirty());
    ui.clear_text_dirty();
    ui.clear_win_dirty();
    ui.clear_image_dirty();
    assert!(!ui.is_text_dirty() && !ui.is_win_dirty() && !ui.is_image_dirty());
    let w = ui.add_element(window(full_rect(), 255), None).unwrap();
    assert!(ui.is_win_dirty() && !ui.is_text_dirty() && !ui.is_image_dirty());
    let image = UiElement::Image(UiImage {
        widget: AbsRect { x: 0, y: 0, width: 12, height: 12 },
        widget_pin_rect: Rect::empty(),
        screen_draw_rect: Rect::empty(),
    });
    ui.add_element(image, Some(w)).unwrap();
    assert!(ui.is_image_dirty() && !ui.is_text_dirty());
    ui.add_element(text(0, 0, 255, "x"), Some(w)).unwrap();
    assert!(ui.is_text_dirty());
}

#[test]
fn set_text_unknown_handle_keeps_flag() {
    let mut ui = Ui::new();
    let w = ui.add_element(window(full_rect(), 255), None).unwrap();
    ui.clear_text_dirty();
    assert!(!ui.set_text(Handle(42), "hello".to_owned()));
    assert!(!ui.is_text_dirty());
    assert!(!ui.set_text(w, "not text".to_owned()));
    assert!(!ui.is_text_dirty());
    let t = ui.add_element(text(0, 0, 255, "old"), Some(w)).unwrap();
    assert!(ui.is_text_dirty());
    assert!(!ui.set_text(Handle(43), "hello".to_owned()));
    assert!(ui.is_text_dirty());
    ui.clear_text_dirty();
    assert!(ui.set_text(t, "new".to_owned()));
    assert!(ui.is_text_dirty());
    match ui.get_element(t).unwrap() {
        UiElement::Text(l) => assert_eq!(l.text, "new"),
        _ => panic!("not a text node"),
    }
}

#[test]
fn upsert_updates_or_inserts() {
    let mut ui = Ui::new();
    let w = ui.add_element(window(full_rect(), 255), None).unwrap();
    let t = ui.add_element(text(0, 0, 255, "a"), Some(w)).unwrap();
    ui.clear_text_dirty();
    ui.upsert(t, || text(0, 0, 0, "inserted"), |e| match e {
        UiElement::Text(mut l) => {
            l.alpha = 7;
            UiElement::Text(l)
        }
        other => other,
    });
    assert!(ui.is_text_dirty());
    match ui.get_element(t).unwrap() {
        UiElement::Text(l) => assert_eq!((l.alpha, l.text.as_str()), (7, "a")),
        _ => panic!("not a text node"),
    }
    ui.upsert(Handle(10), || text(0, 0, 0, "inserted"), |e| e);
    match ui.get_element(Handle(10)).unwrap() {
        UiElement::Text(l) => assert_eq!(l.text, "inserted"),
        _ => panic!("not a text node"),
    }
    // the upserted handle is never given out again
    assert_eq!(ui.add_element(window(full_rect(), 255), None), Some(Handle(11)));
}

#[test]
fn walk_text_at_ten_ten() {
    let mut ui = Ui::new();
    let w = ui.add_element(window(full_rect(), 255), None).unwrap();
    let t = ui.add_element(text(10, 10, 255, "hi"), Some(w)).unwrap();
    let nodes = ui.walk(400, 300);
    assert_eq!(nodes.len(), 2);
    let ti = position(&nodes, t);
    let wi = position(&nodes, w);
    assert!(ti < wi);
    assert_eq!(nodes[ti].depth, 1);
    assert_eq!(nodes[wi].depth, 0);
    assert_eq!(nodes[wi].rect, AbsRect { x: 0, y: 0, width: 400, height: 300 });
    assert_eq!(nodes[ti].rect, AbsRect { x: 10, y: 10, width: 390, height: 290 });
    assert_eq!(nodes[ti].clip, AbsRect { x: 0, y: 0, width: 400, height: 300 });
}

#[test]
fn walk_children_precede_parent_and_alpha_multiplies() {
    let mut ui = Ui::new();
    let inset = Rect::new(
        RectX::LeftRight(Coord::near(0, 10), Coord::far(0, -10)),
        RectY::TopBottom(Coord::near(0, 10), Coord::far(0, -10)),
    );
    let a = ui.add_element(window(full_rect(), 128), None).unwrap();
    let b = ui.add_element(window(inset, 255), Some(a)).unwrap();
    let c = ui.add_element(text(0, 0, 100, "c"), Some(b)).unwrap();
    let d = ui.add_element(window(inset, 51), Some(b)).unwrap();
    let e = ui.add_element(window(inset, 255), Some(a)).unwrap();
    let nodes = ui.walk(100, 100);
    let order: Vec<Handle> = nodes.iter().map(|n| n.handle).collect();
    assert_eq!(order, vec![c, d, b, e, a]);
    let depths: Vec<u64> = nodes.iter().map(|n| n.depth).collect();
    assert_eq!(depths, vec![2, 2, 1, 1, 0]);
    let alphas: Vec<u8> = nodes.iter().map(|n| n.alpha).collect();
    assert_eq!(alphas, vec![50, 128, 128, 128, 255]);
    assert_eq!(nodes[2].rect, AbsRect { x: 10, y: 10, width: 80, height: 80 });
    assert_eq!(nodes[1].rect, AbsRect { x: 20, y: 20, width: 60, height: 60 });
    assert_eq!(nodes[0].rect, nodes[2].rect);
}

#[test]
fn walk_roots_get_disjoint_depth_bands() {
    let mut ui = Ui::new();
    let a = ui.add_element(window(full_rect(), 255), None).unwrap();
    let b = ui.add_element(window(full_rect(), 255), None).unwrap();
    let a1 = ui.add_element(window(full_rect(), 255), Some(a)).unwrap();
    let a2 = ui.add_element(window(full_rect(), 255), Some(a1)).unwrap();
    let b1 = ui.add_element(window(full_rect(), 255), Some(b)).unwrap();
    let nodes = ui.walk(10, 10);
    let order: Vec<Handle> = nodes.iter().map(|n| n.handle).collect();
    assert_eq!(order, vec![a2, a1, a, b1, b]);
    let depths: Vec<u64> = nodes.iter().map(|n| n.depth).collect();
    assert_eq!(depths, vec![2, 1, 0, 4, 3]);
}

#[test]
fn walk_of_empty_arena_is_empty() {
    let ui = Ui::new();
    assert!(ui.walk(640, 480).is_empty());
}

#[test]
fn decorate_window_insets_by_border() {
    let mut ui = Ui::new();
    let container = Rect::new(
        RectX::LeftWidth(Coord::near(0, 0), Dim::new(0, 470)),
        RectY::TopHeight(Coord::near(0, 0), Dim::new(0, 150)),
    );
    let w = ui.add_element(window(container, 255), None).unwrap();
    let inner = UiWindow::decorate_window(&mut ui, w, vec![], Some("Title"));
    assert_eq!(ui.get_children(w).unwrap().len(), 11);
    let nodes = ui.walk(470, 150);
    let i = position(&nodes, inner);
    assert_eq!(nodes[i].rect, AbsRect { x: 12, y: 12, width: 446, height: 126 });
    assert_eq!(nodes[i].depth, 1);
    let untitled = ui.add_element(window(container, 255), None).unwrap();
    UiWindow::decorate_window(&mut ui, untitled, vec![], None);
    assert_eq!(ui.get_children(untitled).unwrap().len(), 10);
}

#[test]
fn chat_writes_bottom_line_and_scrolls() {
    let mut ui = Ui::new();
    let mut chat = Chat::new(&mut ui);
    assert_eq!(chat.handles.len(), 10);
    let slot = chat.next;
    chat.emit_line(&mut ui, "hello");
    match ui.get_element(chat.handles[slot]).unwrap() {
        UiElement::Text(l) => {
            assert_eq!(l.text, "hello");
            assert_eq!(l.ui_coordinates.y, Coord::far(0, -5));
        }
        _ => panic!("not a text node"),
    }
    let above = (slot + 9) % 10;
    match ui.get_element(chat.handles[above]).unwrap() {
        UiElement::Text(l) => assert_eq!(l.ui_coordinates.y, Coord::far(0, -5 - 15)),
        _ => panic!("not a text node"),
    }
}

#[test]
fn walker_reads_current_content() {
    let mut ui = Ui::new();
    let w = ui.add_element(window(full_rect(), 255), None).unwrap();
    let t = ui.add_element(text(0, 0, 255, "before"), Some(w)).unwrap();
    let mut walker = Walker::new(ui.walk(50, 50));
    assert!(ui.set_text(t, "after".to_owned()));
    let (info, element) = walker.next(&ui).unwrap();
    assert_eq!(info.handle, t);
    match element.unwrap() {
        UiElement::Text(l) => assert_eq!(l.text, "after"),
        _ => panic!("not a text node"),
    }
    let (info, element) = walker.next(&ui).unwrap();
    assert_eq!(info.handle, w);
    assert!(matches!(element, Some(UiElement::Window(_))));
    assert!(walker.next(&ui).is_none());
}

#[test]
fn draw_lists_follow_walk_order() {
    let mut ui = Ui::new();
    let container = Rect::new(
        RectX::LeftWidth(Coord::near(0, 0), Dim::new(0, 470)),
        RectY::TopHeight(Coord::near(0, 0), Dim::new(0, 150)),
    );
    let w = ui.add_element(UiElement::Window(UiWindow::new(container, [1, 2, 3, 4], 255)), None).unwrap();
    UiWindow::decorate_window(&mut ui, w, vec![], Some("Title"));
    let windows = ui.window_draws(470, 150);
    assert_eq!(windows.len(), 2);
    assert_eq!(windows[0].rect, AbsRect { x: 12, y: 12, width: 446, height: 126 });
    assert_eq!(windows[0].color, [0, 0, 0, 0]);
    assert_eq!(windows[1].rect, AbsRect { x: 0, y: 0, width: 470, height: 150 });
    assert_eq!(windows[1].color, [1, 2, 3, 4]);
    assert_eq!(windows[1].depth, 0);
    let images = ui.image_draws(470, 150);
    assert_eq!(images.len(), 9);
    assert_eq!(images[0].pin, AbsRect { x: 0, y: 0, width: 12, height: 12 });
    assert_eq!(images[0].uv, AbsRect { x: 0, y: 0, width: 12, height: 12 });
    assert_eq!(images[1].area, AbsRect { x: 458, y: 0, width: 12, height: 12 });
    assert_eq!(images[1].uv, AbsRect { x: 24, y: 0, width: 12, height: 12 });
    assert_eq!(images[5].area, AbsRect { x: 12, y: 12, width: 446, height: 126 });
    assert_eq!(images[6].pin, AbsRect { x: 0, y: 138, width: 12, height: 12 });
    assert!(images.iter().all(|d| d.depth == 1 && d.alpha == 255));
}

#[test]
fn stats_panel_lines() {
    let mut ui = Ui::new();
    let stats = StatsGfx::new(&mut ui);
    assert_eq!(stats.lines.len(), 13);
    assert_eq!(ui.get_children(stats.win_handle).unwrap(), stats.lines);
    let ys: Vec<i32> = stats
        .lines
        .iter()
        .map(|h| match ui.get_element(*h).unwrap() {
            UiElement::Text(l) => l.ui_coordinates.y.dim.pixel_offset,
            _ => panic!("not a text node"),
        })
        .collect();
    assert_eq!(ys, vec![22, 36, 50, 64, 78, 92, 106, 120, 134, 148, 162, 176, 197]);
    match ui.get_element(stats.lines[12]).unwrap() {
        UiElement::Text(l) => assert_eq!((l.color, l.text.as_str()), (TextColor::Gold, " ")),
        _ => panic!("not a text node"),
    }
    assert!(stats.set_line(&mut ui, 0, "FPS: 60.0".to_owned()));
    match ui.get_element(stats.lines[0]).unwrap() {
        UiElement::Text(l) => assert_eq!((l.color, l.text.as_str()), (TextColor::Green, "FPS: 60.0")),
        _ => panic!("not a text node"),
    }
    let nodes = ui.walk(800, 600);
    let panel = nodes.iter().find(|n| n.handle == stats.win_handle).unwrap();
    assert_eq!(panel.rect, AbsRect { x: 628, y: 5, width: 167, height: 255 });
}

#[test]
fn resolve_crops_near_edge_keeping_far_edge() {
    let parent = AbsRect { x: 0, y: 0, width: 100, height: 100 };
    let r = Rect::new(
        RectX::LeftWidth(Coord::near(0, -10), Dim::new(0, 50)),
        RectY::BottomHeight(Coord::far(0, 20), Dim::new(0, 50)),
    );
    assert_eq!(r.absolute(&parent), AbsRect { x: 0, y: 70, width: 40, height: 30 });
}

#[test]
fn child_alpha_fades_descendants_only() {
    let mut ui = Ui::new();
    let w = ui.add_element(window(full_rect(), 7), None).unwrap();
    let inner = ui.add_element(window(full_rect(), 128), Some(w)).unwrap();
    let t = ui.add_element(text(0, 0, 255, "x"), Some(inner)).unwrap();
    let nodes = ui.walk(10, 10);
    let alpha = |h: Handle| nodes[position(&nodes, h)].alpha;
    assert_eq!(alpha(w), 255);
    assert_eq!(alpha(inner), 7);
    assert_eq!(alpha(t), 3);
}

#[test]
fn decorate_window_frame_tiles_and_title() {
    let mut ui = Ui::new();
    let w = ui.add_element(window(full_rect(), 255), None).unwrap();
    let first = ui.add_element(text(0, 0, 255, "kept"), Some(w)).unwrap();
    ui.clear_text_dirty();
    ui.clear_win_dirty();
    ui.clear_image_dirty();
    let inner = UiWindow::decorate_window(&mut ui, w, vec![], Some("Chat"));
    assert!(ui.is_text_dirty() && ui.is_win_dirty() && ui.is_image_dirty());
    let children = ui.get_children(w).unwrap();
    assert_eq!(children.len(), 12);
    assert_eq!(children[0], first);
    assert_eq!(*children.last().unwrap(), inner);
    let tiles: Vec<(i32, i32)> = children[1..10]
        .iter()
        .map(|h| match ui.get_element(*h).unwrap() {
            UiElement::Image(i) => (i.widget.x, i.widget.y),
            _ => panic!("not an image"),
        })
        .collect();
    assert_eq!(tiles, vec![(0, 0), (24, 0), (12, 0), (0, 12), (24, 12), (12, 12), (0, 36), (24, 36), (12, 36)]);
    match ui.get_element(children[10]).unwrap() {
        UiElement::Text(l) => {
            assert_eq!(l.text, "Chat");
            assert_eq!(l.ui_coordinates, Point { x: Coord::near(0, 17), y: Coord::near(0, 10) });
            assert_eq!((l.lineheight, l.color, l.font, l.alpha), (8, TextColor::Black, Font::Mono, 255));
        }
        _ => panic!("not a text node"),
    }
}
