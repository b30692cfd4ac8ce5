use piet::color::{Color, Rgb8};
use piet::point::Point;
use piet::program::{CodelChooser, DirectionPointer, Program};

fn px(c: Color) -> Rgb8 {
    c.to_rgb8()
}

#[test]
fn unit_codels_keep_every_pixel_color() {
    let pixels = vec![px(Color::Red), px(Color::DarkRed), px(Color::White)];
    let prog = Program::new_from_imagebuffer(&pixels, 3, 1, 1, false);
    assert_eq!(*prog.rows(), 1);
    assert_eq!(*prog.cols(), 3);
    assert_eq!(prog.get_codel(0, 0), Some(&Color::Red));
    assert_eq!(prog.get_codel(0, 1), Some(&Color::DarkRed));
    assert_eq!(prog.get_codel(0, 2), Some(&Color::White));
    assert_eq!(prog.get_codel(0, 3), None);
    assert_eq!(prog.get_codel(1, 0), None);
}

#[test]
fn unrecognized_pixels_are_rewritten() {
    let odd = Rgb8 { r: 1, g: 2, b: 3 };
    let prog = Program::new_from_imagebuffer(&vec![odd], 1, 1, 1, false);
    assert_eq!(prog.get_codel(0, 0), Some(&Color::White));
    let prog_b = Program::new_from_imagebuffer(&vec![odd], 1, 1, 1, true);
    assert_eq!(prog_b.get_codel(0, 0), Some(&Color::Black));
}

#[test]
fn majority_vote_picks_the_most_frequent_color() {
    // one codel of size 2: three red pixels outvote one blue one
    let pixels = vec![px(Color::Red), px(Color::Red), px(Color::Blue), px(Color::Red)];
    let prog = Program::new_from_imagebuffer(&pixels, 2, 2, 2, false);
    assert_eq!(*prog.rows(), 1);
    assert_eq!(*prog.cols(), 1);
    assert_eq!(prog.get_codel(0, 0), Some(&Color::Red));
}

#[test]
fn partial_codels_at_the_border_are_cut_off() {
    let pixels = vec![
        px(Color::Red), px(Color::Red), px(Color::Green),
        px(Color::Red), px(Color::Red), px(Color::Green),
    ];
    let prog = Program::new_from_imagebuffer(&pixels, 3, 2, 2, false);
    assert_eq!(*prog.rows(), 1);
    assert_eq!(*prog.cols(), 1);
    assert_eq!(prog.get_codel(0, 0), Some(&Color::Red));
}

#[test]
fn rasterizing_and_rebuilding_keeps_the_codels() {
    let pixels = vec![
        px(Color::Red), px(Color::Red), px(Color::Cyan), px(Color::Cyan),
        px(Color::Red), px(Color::Red), px(Color::Cyan), px(Color::Cyan),
        px(Color::DarkBlue), px(Color::DarkBlue), px(Color::White), px(Color::White),
        px(Color::DarkBlue), px(Color::DarkBlue), px(Color::White), px(Color::White),
    ];
    let prog = Program::new_from_imagebuffer(&pixels, 4, 4, 2, false);
    let raster = prog.codels_to_pixels();
    let again = Program::new_from_imagebuffer(&raster, *prog.cols(), *prog.rows(), 1, false);
    assert_eq!(*again.rows(), *prog.rows());
    assert_eq!(*again.cols(), *prog.cols());
    for r in 0..*prog.rows() {
        for c in 0..*prog.cols() {
            assert_eq!(again.get_codel(r, c), prog.get_codel(r, c));
        }
    }
}

#[test]
fn blocks_collect_connected_same_colored_codels() {
    // an L of red over white:
    //   R W
    //   R R
    let pixels = vec![px(Color::Red), px(Color::White), px(Color::Red), px(Color::Red)];
    let prog = Program::new_from_imagebuffer(&pixels, 2, 2, 1, false);
    let red_block = prog.get_color_block(&Point(0, 0)).unwrap();
    assert_eq!(red_block.color(), Color::Red);
    assert_eq!(red_block.num_codels(), 3);
    let white_block = prog.get_color_block(&Point(0, 1)).unwrap();
    assert_eq!(white_block.color(), Color::White);
    assert_eq!(white_block.num_codels(), 1);
    assert!(prog.get_color_block(&Point(2, 0)).is_none());
}

#[test]
fn diagonal_codels_do_not_join() {
    //   R G
    //   G R
    let pixels = vec![px(Color::Red), px(Color::Green), px(Color::Green), px(Color::Red)];
    let prog = Program::new_from_imagebuffer(&pixels, 2, 2, 1, false);
    assert_eq!(prog.get_color_block(&Point(0, 0)).unwrap().num_codels(), 1);
    assert_eq!(prog.get_color_block(&Point(1, 1)).unwrap().num_codels(), 1);
    assert_eq!(prog.get_color_block(&Point(0, 1)).unwrap().num_codels(), 1);
}

#[test]
fn edge_representatives_follow_the_selection_table() {
    // an L-shaped red block:
    //   R W
    //   R R
    let pixels = vec![px(Color::Red), px(Color::White), px(Color::Red), px(Color::Red)];
    let prog = Program::new_from_imagebuffer(&pixels, 2, 2, 1, false);
    let b = prog.get_color_block(&Point(0, 0)).unwrap();
    // furthest right is (1,1) alone
    assert_eq!(b.edge(DirectionPointer::Right, CodelChooser::Left), Point(1, 1));
    assert_eq!(b.edge(DirectionPointer::Right, CodelChooser::Right), Point(1, 1));
    // furthest down is row 1: chooser picks max col then min col
    assert_eq!(b.edge(DirectionPointer::Down, CodelChooser::Left), Point(1, 1));
    assert_eq!(b.edge(DirectionPointer::Down, CodelChooser::Right), Point(1, 0));
    // furthest left is column 0: chooser picks max row then min row
    assert_eq!(b.edge(DirectionPointer::Left, CodelChooser::Left), Point(1, 0));
    assert_eq!(b.edge(DirectionPointer::Left, CodelChooser::Right), Point(0, 0));
    // furthest up is (0,0) alone
    assert_eq!(b.edge(DirectionPointer::Up, CodelChooser::Left), Point(0, 0));
    assert_eq!(b.edge(DirectionPointer::Up, CodelChooser::Right), Point(0, 0));
}

#[test]
fn next_in_direction_respects_the_border() {
    let pixels = vec![px(Color::Red), px(Color::Red)];
    let prog = Program::new_from_imagebuffer(&pixels, 2, 1, 1, false);
    let p = Point(0, 0);
    assert_eq!(p.next_in_direction(DirectionPointer::Right, &prog), Some(Point(0, 1)));
    assert_eq!(p.next_in_direction(DirectionPointer::Left, &prog), None);
    assert_eq!(p.next_in_direction(DirectionPointer::Up, &prog), None);
    assert_eq!(p.next_in_direction(DirectionPointer::Down, &prog), None);
    assert_eq!(*p.row(), 0);
    assert_eq!(*p.col(), 0);
}

#[test]
fn point_coordinates_can_be_rewritten() {
    let mut p = Point(1, 2);
    *p.row_mut() = 7;
    *p.col_mut() = 9;
    assert_eq!(p, Point(7, 9));
}
