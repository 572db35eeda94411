use rustshot::canvas::{Canvas, Rgba};
use rustshot::commands::KeyCommand;
use rustshot::history::{Image, ImageStack};
use rustshot::paint::{drag_release, drag_update, start_text_session, sync_text_exit, PaintState, Tool};

const WHITE: Rgba = Rgba { r: 255, g: 255, b: 255, a: 255 };
const BLUE: Rgba = Rgba { r: 10, g: 20, b: 200, a: 255 };
const RED: Rgba = Rgba { r: 200, g: 0, b: 0, a: 255 };

fn solid(w: u32, h: u32, c: Rgba) -> Canvas {
    Canvas::create(w, h, c).expect("valid dimensions")
}

fn same_pixels(a: &Canvas, b: &Canvas) -> bool {
    if a.get_width() != b.get_width() || a.get_height() != b.get_height() {
        return false;
    }
    for y in 0..a.get_height() {
        for x in 0..a.get_width() {
            if a.get_pixel(x, y) != b.get_pixel(x, y) {
                return false;
            }
        }
    }
    true
}

/// Commit one edit: paint one pixel onto the live image and push it.
fn edit_one_pixel(stack: &mut ImageStack, x: u32, y: u32, c: Rgba) {
    let mut tmp = stack.get_tmp_image();
    tmp.image.set_pixel(x, y, c);
    stack.set_tmp_image(tmp.duplicate());
    stack.stack_image(tmp);
}

#[test]
fn seed_state_after_capture() {
    let stack = ImageStack::new(solid(6, 6, WHITE));
    assert_eq!(stack.get_images_len(), 1);
    assert_eq!(stack.get_redo_images_len(), 0);
    assert_eq!(stack.get_crop_images_len(), 1);
    assert_eq!(stack.get_tmp_image().get_width(), 6);
    assert_eq!(stack.get_final_image().get_crop_index(), 0);
}

#[test]
fn undo_then_redo_restores_tmp_exactly() {
    let mut stack = ImageStack::new(solid(8, 8, WHITE));
    for k in 1..=3u32 {
        edit_one_pixel(&mut stack, k, k, RED);
    }
    let after_three = stack.get_tmp_image().get_image();
    stack.undo();
    stack.undo();
    // Two steps back: only the first edit remains visible.
    let rewound = stack.get_tmp_image().get_image();
    assert_eq!(rewound.get_pixel(1, 1), Some(RED));
    assert_eq!(rewound.get_pixel(2, 2), Some(WHITE));
    stack.redo();
    stack.redo();
    let replayed = stack.get_tmp_image().get_image();
    assert!(same_pixels(&after_three, &replayed));
    assert_eq!(stack.get_images_len(), 4);
    assert_eq!(stack.get_redo_images_len(), 0);
}

#[test]
fn undo_never_pops_the_seed() {
    let mut stack = ImageStack::new(solid(4, 4, WHITE));
    stack.undo();
    stack.undo();
    assert_eq!(stack.get_images_len(), 1);
    assert_eq!(stack.get_redo_images_len(), 0);
}

#[test]
fn committing_after_undo_clears_redo() {
    let mut stack = ImageStack::new(solid(8, 8, WHITE));
    edit_one_pixel(&mut stack, 1, 1, RED);
    edit_one_pixel(&mut stack, 2, 2, RED);
    stack.undo();
    assert_eq!(stack.get_redo_images_len(), 1);
    // A fresh edit invalidates the undone chain.
    edit_one_pixel(&mut stack, 3, 3, BLUE);
    assert_eq!(stack.get_redo_images_len(), 0);
    // A redo now has no effect until another undo.
    let before = stack.get_tmp_image().get_image();
    let len_before = stack.get_images_len();
    stack.redo();
    assert_eq!(stack.get_images_len(), len_before);
    assert!(same_pixels(&before, &stack.get_tmp_image().get_image()));
    stack.undo();
    assert_eq!(stack.get_redo_images_len(), 1);
}

#[test]
fn crop_commit_grows_lineage_and_resizes_final() {
    let mut c = solid(100, 100, WHITE);
    c.set_pixel(30, 30, RED);
    let mut stack = ImageStack::new(c);
    let lineage_before = stack.get_crop_images_len();
    stack.commit_crop(20, 20, 40, 40);
    // One new lineage generation, of exactly the crop rectangle's size.
    assert_eq!(stack.get_crop_images_len(), lineage_before + 1);
    let gen = stack.get_crop_image(1);
    assert_eq!(gen.get_width(), 40);
    assert_eq!(gen.get_height(), 40);
    // The committed image took the crop's dimensions and content.
    let fin = stack.get_final_image();
    assert_eq!(fin.get_width(), 40);
    assert_eq!(fin.get_height(), 40);
    assert_eq!(fin.get_image().get_pixel(10, 10), Some(RED));
    assert_eq!(fin.get_crop_index(), 1);
}

#[test]
fn eraser_reveals_lineage_content_after_later_draws() {
    let mut stack = ImageStack::new(solid(30, 30, BLUE));
    let mut paint = PaintState::new();
    paint.curr_tool = Tool::Drawing;
    paint.curr_color = RED;
    paint.curr_thickness = 4;
    drag_update(&mut paint, &mut stack, (5, 15));
    drag_update(&mut paint, &mut stack, (25, 15));
    drag_release(&mut paint, &mut stack);
    assert_eq!(stack.get_tmp_image().get_image().get_pixel(15, 15), Some(RED));
    // Erase across the stroke: the pristine lineage pixel comes back,
    // no matter what was drawn since.
    paint.curr_tool = Tool::Eraser;
    drag_update(&mut paint, &mut stack, (5, 15));
    drag_update(&mut paint, &mut stack, (25, 15));
    let erased = stack.get_tmp_image().get_image();
    assert_eq!(erased.get_pixel(15, 15), Some(BLUE));
    assert_eq!(erased.get_pixel(15, 13), Some(BLUE));
}

#[test]
fn thick_line_drag_scenario() {
    // A 100 x 100 opaque white canvas; a 10 px thick stroke from
    // (10, 10) to (10, 50).
    let mut stack = ImageStack::new(solid(100, 100, WHITE));
    let mut paint = PaintState::new();
    paint.curr_tool = Tool::Drawing;
    paint.curr_color = RED;
    paint.curr_thickness = 10;
    drag_update(&mut paint, &mut stack, (10, 10));
    drag_update(&mut paint, &mut stack, (10, 50));
    drag_release(&mut paint, &mut stack);
    let out = stack.get_tmp_image().get_image();
    for y in 20..=40u32 {
        for x in 0..=20u32 {
            let dx = x as i64 - 10;
            let dy = y as i64 - 30;
            if dx * dx + dy * dy <= 100 {
                assert_eq!(out.get_pixel(x, y), Some(RED));
            }
        }
    }
    assert_eq!(out.get_pixel(90, 90), Some(WHITE));
    assert_eq!(stack.get_images_len(), 2);
}

#[test]
fn shape_preview_redraws_from_last_commit() {
    let mut stack = ImageStack::new(solid(40, 40, WHITE));
    let mut paint = PaintState::new();
    paint.curr_tool = Tool::FilledRect;
    paint.curr_color = BLUE;
    drag_update(&mut paint, &mut stack, (5, 5));
    drag_update(&mut paint, &mut stack, (20, 20));
    // Dragging back to a smaller rectangle must not leave the larger
    // preview behind: the preview is re-rendered from the snapshot.
    drag_update(&mut paint, &mut stack, (10, 10));
    let out = stack.get_tmp_image().get_image();
    assert_eq!(out.get_pixel(7, 7), Some(BLUE));
    assert_eq!(out.get_pixel(15, 15), Some(WHITE));
    drag_release(&mut paint, &mut stack);
    assert_eq!(stack.get_images_len(), 2);
    assert!(!paint.painting);
}

#[test]
fn undo_changes_discards_the_session() {
    let original = solid(10, 10, WHITE);
    let mut stack = ImageStack::new(original.duplicate());
    for k in 1..=3u32 {
        edit_one_pixel(&mut stack, k, k, RED);
    }
    stack.undo_changes();
    let fin = stack.get_final_image();
    assert!(same_pixels(&original, &fin.get_image()));
    assert_eq!(fin.get_crop_index(), 0);
    assert_eq!(stack.get_images_len(), 1);
    assert_eq!(stack.get_redo_images_len(), 0);
    assert_eq!(stack.get_crop_images_len(), 1);
}

#[test]
fn save_changes_keeps_the_session() {
    let mut stack = ImageStack::new(solid(10, 10, WHITE));
    edit_one_pixel(&mut stack, 4, 4, RED);
    stack.save_changes();
    let fin = stack.get_final_image();
    assert_eq!(fin.get_image().get_pixel(4, 4), Some(RED));
    assert_eq!(fin.get_crop_index(), 0);
    assert_eq!(stack.get_images_len(), 1);
    assert_eq!(stack.get_redo_images_len(), 0);
    assert_eq!(stack.get_crop_images_len(), 1);
    // The saved image is its own new baseline.
    assert!(same_pixels(
        &stack.get_crop_image(0),
        &stack.get_final_image().get_image()
    ));
}

#[test]
fn restore_rewinds_like_undo_changes() {
    let original = solid(9, 9, BLUE);
    let mut stack = ImageStack::new(original.duplicate());
    edit_one_pixel(&mut stack, 2, 2, RED);
    stack.restore();
    assert!(same_pixels(&original, &stack.get_final_image().get_image()));
    assert_eq!(stack.get_images_len(), 1);
}

#[test]
fn redo_stack_round_trip() {
    let mut stack = ImageStack::new(solid(5, 5, WHITE));
    assert!(stack.pop_redo_image().is_none());
    let mut img = stack.get_tmp_image();
    img.image.set_pixel(1, 2, RED);
    stack.push_redo_image(img.duplicate());
    assert_eq!(stack.get_redo_images_len(), 1);
    let back = stack.pop_redo_image().expect("entry present");
    assert!(same_pixels(&img.get_image(), &back.get_image()));
    assert_eq!(stack.get_redo_images_len(), 0);
}

#[test]
fn pop_last_image_falls_back_to_final() {
    let mut stack = ImageStack::new(solid(5, 5, BLUE));
    let seed = stack.pop_last_image();
    assert_eq!(stack.get_images_len(), 0);
    let fallback = stack.pop_last_image();
    assert!(same_pixels(&seed.get_image(), &fallback.get_image()));
}

#[test]
fn text_session_editing() {
    // Type "AB", press Backspace, press Enter, type "C".
    let mut stack = ImageStack::new(solid(100, 100, WHITE));
    let mut paint = PaintState::new();
    paint.curr_tool = Tool::Text;
    start_text_session(&mut paint, &mut stack, (5, 5));
    assert!(paint.text_info.writing);
    assert_eq!(paint.text_info.max_width, 95);
    assert_eq!(paint.text_info.max_height, 95);
    paint.text_info.handle_char('A');
    paint.text_info.handle_char('B');
    paint.text_info.handle_backspace();
    paint.text_info.handle_enter();
    paint.text_info.handle_char('C');
    assert_eq!(paint.text_info.content, vec!['A', '\n', 'C']);
    let lines = paint.text_info.lines();
    assert_eq!(lines, vec![vec!['A'], vec!['C']]);
}

#[test]
fn text_cursor_moves_and_stops_at_ends() {
    let mut stack = ImageStack::new(solid(50, 50, WHITE));
    let mut paint = PaintState::new();
    paint.curr_tool = Tool::Text;
    start_text_session(&mut paint, &mut stack, (0, 0));
    paint.text_info.handle_char('x');
    paint.text_info.handle_char('y');
    paint.text_info.handle_arrow_left();
    paint.text_info.handle_arrow_left();
    paint.text_info.handle_arrow_left();
    assert_eq!(paint.text_info.cursor_x, 0);
    paint.text_info.handle_char('w');
    assert_eq!(paint.text_info.content, vec!['w', 'x', 'y']);
    paint.text_info.handle_arrow_right();
    paint.text_info.handle_arrow_right();
    paint.text_info.handle_arrow_right();
    assert_eq!(paint.text_info.cursor_x, 3);
    // A backspace at the start is a no-op.
    for _ in 0..5 {
        paint.text_info.handle_backspace();
    }
    assert_eq!(paint.text_info.content, Vec::<char>::new());
    paint.text_info.handle_backspace();
    assert_eq!(paint.text_info.cursor_x, 0);
}

#[test]
fn leaving_text_mode_clears_artifacts() {
    let mut stack = ImageStack::new(solid(20, 20, WHITE));
    let mut paint = PaintState::new();
    paint.curr_tool = Tool::Text;
    start_text_session(&mut paint, &mut stack, (2, 2));
    // Pretend a frame with a cursor artifact is on the live image.
    let mut dirty_tmp = stack.get_tmp_image();
    dirty_tmp.image.set_pixel(2, 2, RED);
    stack.set_tmp_image(dirty_tmp);
    paint.curr_tool = Tool::NoTool;
    sync_text_exit(&mut paint, &mut stack);
    assert!(!paint.text_info.dirty);
    assert!(!paint.text_info.writing);
    assert_eq!(stack.get_tmp_image().get_image().get_pixel(2, 2), Some(WHITE));
}

#[test]
fn text_guard_blocks_input_past_the_edge() {
    let mut stack = ImageStack::new(solid(30, 30, WHITE));
    let mut paint = PaintState::new();
    paint.curr_tool = Tool::Text;
    start_text_session(&mut paint, &mut stack, (10, 10));
    // Report a measured width at the limit: typing is refused.
    paint.text_info.width = paint.text_info.max_width;
    paint.text_info.handle_char('A');
    assert_eq!(paint.text_info.content, Vec::<char>::new());
    // The height guard blocks line breaks the same way.
    paint.text_info.height = paint.text_info.max_height;
    paint.text_info.handle_enter();
    assert_eq!(paint.text_info.content, Vec::<char>::new());
}

#[test]
fn crop_via_drag_release() {
    // Commit a crop of rectangle (20, 20, 40, 40) on a 100 x 100 image.
    let mut stack = ImageStack::new(solid(100, 100, WHITE));
    let mut paint = PaintState::new();
    paint.curr_tool = Tool::Crop;
    drag_update(&mut paint, &mut stack, (20, 20));
    drag_update(&mut paint, &mut stack, (60, 60));
    drag_release(&mut paint, &mut stack);
    let fin = stack.get_final_image();
    assert_eq!(fin.get_width(), 40);
    assert_eq!(fin.get_height(), 40);
    assert_eq!(stack.get_crop_images_len(), 2);
}

#[test]
fn paint_state_resets() {
    let mut paint = PaintState::new();
    paint.curr_tool = Tool::Arrow;
    paint.curr_color = RED;
    paint.painting = true;
    paint.last_ptr = (3, 4);
    paint.soft_reset();
    assert_eq!(paint.curr_tool, Tool::Arrow);
    assert!(!paint.painting);
    assert_eq!(paint.last_ptr, (0, 0));
    paint.reset();
    assert_eq!(paint.curr_tool, Tool::NoTool);
    assert_eq!(paint.curr_color, WHITE);
}

#[test]
fn key_command_labels() {
    assert_eq!(KeyCommand::Edit.to_string(), "Edit");
    assert_eq!(KeyCommand::SaveScreenshot.to_string(), "Save Screenshot");
    assert_eq!(KeyCommand::TakeScreenshot.to_string(), "Take Screenshot");
    assert_eq!(
        KeyCommand::QuickSaveScreenshot.to_string(),
        "Quick Screenshot"
    );
    assert_eq!(KeyCommand::NoCommand.to_string(), "None");
    assert_eq!(KeyCommand::Copy.to_string(), "Copy");
}

#[test]
fn lineage_accessors() {
    let mut stack = ImageStack::new(solid(7, 7, WHITE));
    let extra = solid(3, 3, BLUE);
    stack.push_crop_image(extra.duplicate());
    assert_eq!(stack.get_crop_images_len(), 2);
    assert!(same_pixels(&extra, &stack.get_crop_image(1)));
}

#[test]
fn image_accessors() {
    let img = Image::new(solid(11, 4, BLUE), 2);
    assert_eq!(img.get_width(), 11);
    assert_eq!(img.get_height(), 4);
    assert_eq!(img.get_crop_index(), 2);
    assert!(same_pixels(&img.get_image(), &solid(11, 4, BLUE)));
}

#[test]
fn display_content_carries_the_cursor_marker() {
    let mut stack = ImageStack::new(solid(50, 50, WHITE));
    let mut paint = PaintState::new();
    paint.curr_tool = Tool::Text;
    start_text_session(&mut paint, &mut stack, (1, 1));
    paint.text_info.handle_char('h');
    paint.text_info.handle_char('i');
    paint.text_info.handle_arrow_left();
    assert_eq!(paint.text_info.display_content(), vec!['h', '_', 'i']);
    // The committed content never holds the marker.
    assert_eq!(paint.text_info.content, vec!['h', 'i']);
}

#[test]
fn guide_rect_pads_and_clamps() {
    let mut stack = ImageStack::new(solid(40, 40, WHITE));
    let mut paint = PaintState::new();
    paint.curr_tool = Tool::Text;
    start_text_session(&mut paint, &mut stack, (8, 8));
    // Font size 15: the padding is a quarter of it.
    paint.text_info.width = 10;
    paint.text_info.height = 15;
    assert_eq!(paint.text_info.guide_rect(), (5, 5, 16, 21));
    // A huge measured extent is clamped to the session's room.
    paint.text_info.width = 1000;
    paint.text_info.height = 1000;
    assert_eq!(paint.text_info.guide_rect(), (5, 5, 32, 32));
}
