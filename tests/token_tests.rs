use array2d::Array2D;
use ferrotoken::color::Color;
use ferrotoken::pixels::{PixelGrid, Rect};
use ferrotoken::token::{
    create, create_filter_from_color, find_mask_bounds, get_transparency_mask, paste_masked,
    within_size_limits, TransparencyMask,
};
use ferrotoken::viewport::{crop_to_viewport, fit_to_viewport, scale_to_fill_viewport};

const MAGENTA: Color = Color { r: 255, g: 0, b: 255, a: 255 };

#[test]
fn test_array_contains_mask() {
    let rows = vec![
        vec![false, false, false, true, false],
        vec![false, false, true, false, false],
        vec![false, true, false, true, false],
        vec![false, false, true, false, false],
        vec![false, false, false, false, false],
    ];

    let mask = Array2D::from_rows(&rows);
    let bounds = find_mask_bounds(&mask).unwrap();

    assert_eq!(bounds, Rect { x: 1, y: 0, width: 3, height: 4 });
}

#[test]
fn test_array_contains_no_mask() {
    let rows = vec![vec![false; 5]; 5];

    let mask = Array2D::from_rows(&rows);
    let bounds = find_mask_bounds(&mask);

    assert!(bounds.is_none());
}

#[test]
fn test_image_contains_transparency_mask() {
    let mask_pixels: Vec<(u32, u32)> = vec![(3, 0), (2, 1), (1, 2), (3, 2), (2, 3)];

    let mut img = PixelGrid::new(5, 5);
    for (x, y) in mask_pixels {
        img.put_pixel(x, y, MAGENTA);
    }

    let transparency_mask = get_transparency_mask(MAGENTA, &img).unwrap();
    assert_eq!(transparency_mask.bounds, Rect { x: 1, y: 0, width: 3, height: 4 });

    let filter_check = find_mask_bounds(&transparency_mask.filter).unwrap();
    assert_eq!(filter_check, Rect { x: 1, y: 0, width: 3, height: 4 });
}

#[test]
fn test_image_contains_no_mask() {
    let img = PixelGrid::new(5, 5);
    let transparency_mask = get_transparency_mask(MAGENTA, &img);
    assert!(transparency_mask.is_none());
}

#[test]
fn filter_marks_exactly_the_matching_pixels() {
    let mut img = PixelGrid::new(3, 2);
    img.put_pixel(2, 0, MAGENTA);
    img.put_pixel(0, 1, Color::new(250, 5, 250, 255));
    let filter = create_filter_from_color(MAGENTA, &img);
    assert_eq!(filter.num_rows(), 2);
    assert_eq!(filter.num_columns(), 3);
    assert_eq!(filter.as_rows(), vec![vec![false, false, true], vec![true, false, false]]);
}

#[test]
fn single_cell_gives_unit_rectangle() {
    let mut rows = vec![vec![false; 4]; 3];
    rows[2][3] = true;
    let bounds = find_mask_bounds(&Array2D::from_rows(&rows)).unwrap();
    assert_eq!(bounds, Rect { x: 3, y: 2, width: 1, height: 1 });
}

#[test]
fn full_grid_gives_full_rectangle() {
    let rows = vec![vec![true; 4]; 3];
    let bounds = find_mask_bounds(&Array2D::from_rows(&rows)).unwrap();
    assert_eq!(bounds, Rect { x: 0, y: 0, width: 4, height: 3 });
}

#[test]
fn empty_grid_has_no_bounds() {
    let rows: Vec<Vec<bool>> = Vec::new();
    assert!(find_mask_bounds(&Array2D::from_rows(&rows)).is_none());
}

fn numbered(width: u32, height: u32) -> PixelGrid {
    let mut img = PixelGrid::new(width, height);
    for y in 0..height {
        for x in 0..width {
            img.put_pixel(x, y, Color::new(x as u8, y as u8, 0, 255));
        }
    }
    img
}

#[test]
fn crop_is_centered() {
    let img = numbered(7, 4);
    let out = crop_to_viewport(Rect { x: 0, y: 0, width: 3, height: 2 }, &img);
    assert_eq!((out.width, out.height), (3, 2));
    assert_eq!(out.get_pixel(0, 0), Color::new(2, 1, 0, 255));
    assert_eq!(out.get_pixel(2, 1), Color::new(4, 2, 0, 255));
}

#[test]
fn crop_never_exceeds_the_image() {
    let img = numbered(2, 3);
    let out = crop_to_viewport(Rect { x: 0, y: 0, width: 5, height: 1 }, &img);
    assert_eq!((out.width, out.height), (2, 1));
    assert_eq!(out.get_pixel(1, 0), Color::new(1, 1, 0, 255));
}

#[test]
fn scaling_covers_the_viewport() {
    let img = numbered(2, 1);
    let tall = scale_to_fill_viewport(Rect { x: 0, y: 0, width: 3, height: 3 }, &img);
    assert_eq!((tall.width, tall.height), (6, 3));
    let img = numbered(3, 7);
    let wide = scale_to_fill_viewport(Rect { x: 0, y: 0, width: 6, height: 2 }, &img);
    assert_eq!((wide.width, wide.height), (6, 14));
    assert_eq!(wide.pixels.len(), 6 * 14);
}

#[test]
fn fitted_content_has_viewport_size() {
    let img = numbered(2, 2);
    let out = fit_to_viewport(Rect { x: 1, y: 1, width: 4, height: 5 }, &img);
    assert_eq!((out.width, out.height), (4, 5));
    assert_eq!(out.pixels.len(), 20);
    let out = fit_to_viewport(Rect { x: 0, y: 0, width: 3, height: 1 }, &numbered(9, 9));
    assert_eq!((out.width, out.height), (3, 1));
}

#[test]
fn paste_replaces_only_set_cells_inside_bounds() {
    let template = numbered(3, 3);
    let mut fitted = PixelGrid::new(2, 2);
    fitted.put_pixel(0, 0, MAGENTA);
    fitted.put_pixel(1, 1, Color::new(9, 9, 9, 9));
    let rows = vec![vec![true, false, false], vec![false, true, true], vec![false, true, true]];
    let mask = TransparencyMask {
        bounds: Rect { x: 1, y: 1, width: 2, height: 2 },
        filter: Array2D::from_rows(&rows),
    };
    let out = paste_masked(&mask, &template, &fitted);
    assert_eq!(out.get_pixel(0, 0), Color::new(0, 0, 0, 255));
    assert_eq!(out.get_pixel(1, 1), MAGENTA);
    assert_eq!(out.get_pixel(2, 2), Color::new(9, 9, 9, 9));
    assert_eq!(out.get_pixel(2, 1), Color::new(0, 0, 0, 0));
    assert_eq!(out.get_pixel(1, 0), Color::new(1, 0, 0, 255));
}

fn template_with_window() -> PixelGrid {
    let mut template = numbered(4, 4);
    for (x, y) in [(1, 1), (2, 1), (1, 2)] {
        template.put_pixel(x, y, MAGENTA);
    }
    template
}

fn solid(width: u32, height: u32, c: Color) -> PixelGrid {
    PixelGrid::from_pixels(width, height, vec![c; (width * height) as usize]).unwrap()
}

#[test]
fn create_without_mask_gives_none() {
    let template = numbered(4, 4);
    let mut content = solid(2, 2, Color::new(200, 10, 10, 255));
    assert!(within_size_limits(&template, &content));
    assert!(create(MAGENTA, template, &mut content).is_none());
}

#[test]
fn create_stamps_content_into_window() {
    let template = template_with_window();
    let red = Color::new(200, 10, 10, 255);
    let mut content = solid(3, 3, red);
    let before = content.clone();
    let token = create(MAGENTA, template.clone(), &mut content).unwrap();
    assert_eq!(content, before);
    assert_eq!((token.width, token.height), (4, 4));
    for y in 0..4 {
        for x in 0..4 {
            let want = if [(1, 1), (2, 1), (1, 2)].contains(&(x, y)) { red } else { template.get_pixel(x, y) };
            assert_eq!(token.get_pixel(x, y), want);
        }
    }
}

#[test]
fn create_twice_gives_identical_images() {
    let template = template_with_window();
    let mut content = numbered(5, 3);
    let first = create(MAGENTA, template.clone(), &mut content).unwrap();
    let second = create(MAGENTA, template, &mut content).unwrap();
    assert_eq!(first, second);
}

#[test]
fn size_limits() {
    assert!(!within_size_limits(&PixelGrid::new(4, 4), &PixelGrid::new(0, 3)));
    assert!(within_size_limits(&PixelGrid::new(4, 4), &PixelGrid::new(2, 3)));
    assert!(!within_size_limits(&PixelGrid::new(70000, 1), &PixelGrid::new(1, 70000)));
}

#[test]
fn from_pixels_checks_the_count() {
    assert!(PixelGrid::from_pixels(2, 2, vec![MAGENTA; 3]).is_none());
    assert!(PixelGrid::from_pixels(2, 2, vec![MAGENTA; 4]).is_some());
}
