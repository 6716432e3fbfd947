use raycaster::utils::color::RGBColor;
use raycaster::window::canvas::Canvas;

#[test]
fn canvas_keeps_its_size() {
    let canvas = Canvas::new(vec![0; 40], 10, 3, 4);
    assert_eq!(canvas.width(), 3);
    assert_eq!(canvas.height(), 4);
    assert_eq!(canvas.buffer().len(), 40);
}

#[test]
fn canvas_fits_when_the_buffer_holds_every_row() {
    assert!(Canvas::new(vec![0; 40], 10, 3, 4).fits());
    assert!(Canvas::new(vec![0; 36], 9, 3, 4).fits());
    assert!(!Canvas::new(vec![0; 39], 10, 3, 4).fits());
    assert!(!Canvas::new(vec![0; 40], 8, 3, 4).fits());
    assert!(Canvas::new(vec![], 0, 0, 0).fits());
    assert!(Canvas::new(vec![], 0, 0, 7).fits());
    assert!(!Canvas::new(vec![0; 8], usize::MAX, 1, usize::MAX).fits());
    assert!(!Canvas::new(vec![0; 8], 3, usize::MAX, 1).fits());
}

#[test]
fn draw_pixel_writes_three_bytes() {
    let mut canvas = Canvas::new(vec![7; 20], 10, 3, 2);
    canvas.draw_pixel(1, 1, &RGBColor { red: 1, green: 2, blue: 3 });
    assert_eq!(
        canvas.buffer(),
        &vec![7, 7, 7, 7, 7, 7, 7, 7, 7, 7, 7, 7, 7, 1, 2, 3, 7, 7, 7, 7]
    );
    canvas.draw_pixel(0, 0, &RGBColor { red: 4, green: 5, blue: 6 });
    canvas.draw_pixel(2, 0, &RGBColor { red: 8, green: 9, blue: 10 });
    assert_eq!(
        canvas.buffer(),
        &vec![4, 5, 6, 7, 7, 7, 8, 9, 10, 7, 7, 7, 7, 1, 2, 3, 7, 7, 7, 7]
    );
}

#[test]
fn pixel_reads_what_draw_pixel_wrote() {
    let mut canvas = Canvas::new(vec![0; 18], 6, 2, 3);
    canvas.draw_pixel(1, 2, &RGBColor::yellow());
    canvas.draw_pixel(0, 1, &RGBColor::blue());
    assert_eq!(canvas.pixel(1, 2), RGBColor::yellow());
    assert_eq!(canvas.pixel(0, 1), RGBColor::blue());
    assert_eq!(canvas.pixel(0, 0), RGBColor::black());
    assert_eq!(canvas.pixel(1, 1), RGBColor::black());
}
