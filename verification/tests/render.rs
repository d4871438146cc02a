use brz::render::{visible_lines, ColorMap, Coord, Rect, Renderer, Style};

struct Grid {
    colors: ColorMap,
    size: Coord,
    cells: Vec<Vec<char>>,
    cursor: Option<Coord>,
}

impl Grid {
    fn new(x: usize, y: usize) -> Grid {
        Grid {
            colors: ColorMap::default(),
            size: Coord { x, y },
            cells: vec![vec!['.'; x]; y],
            cursor: None,
        }
    }

    fn rows(&self) -> Vec<String> {
        self.cells.iter().map(|row| row.iter().collect()).collect()
    }
}

impl Renderer for Grid {
    fn color_map(&self) -> &ColorMap {
        &self.colors
    }

    fn dimensions(&self) -> Coord {
        self.size
    }

    fn put(&mut self, coord: Coord, ch: char, _style: Style) {
        if coord.is_inside_dimensions(self.size) {
            self.cells[coord.y][coord.x] = ch;
        }
    }

    fn set_cursor(&mut self, coord: Option<Coord>) {
        self.cursor = coord;
    }
}

#[test]
fn styles_paint_over_each_other() {
    let below = Style { fg: Some(1), bg: Some(2), style: None };
    let above = Style { fg: None, bg: Some(7), style: Some(1) };
    assert_eq!(below.paintover(above), Style { fg: Some(1), bg: Some(7), style: Some(1) });
    assert_eq!(below.paintover(Style::default()), below);
}

#[test]
fn cells_move_and_stop_at_the_edges() {
    let cell = Coord { x: 3, y: 5 };
    assert_eq!(cell.add_x(2), Coord { x: 5, y: 5 });
    assert_eq!(cell.sub_x(9), Coord { x: 0, y: 5 });
    assert_eq!(cell.add_y(usize::MAX), Coord { x: 3, y: usize::MAX });
    assert_eq!(cell.sub_y(1), Coord { x: 3, y: 4 });
    assert_eq!(cell.center(), Coord { x: 1, y: 2 });
    assert_eq!(cell.offset_by(Coord { x: 1, y: 1 }), Coord { x: 4, y: 6 });
    assert!(cell.is_inside_dimensions(Coord { x: 4, y: 6 }));
    assert!(!cell.is_inside_dimensions(Coord { x: 3, y: 6 }));
}

#[test]
fn rectangles_split_from_either_edge() {
    let rect = Rect { offset: Coord { x: 2, y: 1 }, dimensions: Coord { x: 10, y: 6 } };
    let (left, right) = rect.split_verticaly_at(3);
    assert_eq!(left, Rect { offset: Coord { x: 2, y: 1 }, dimensions: Coord { x: 3, y: 6 } });
    assert_eq!(right, Rect { offset: Coord { x: 5, y: 1 }, dimensions: Coord { x: 7, y: 6 } });
    let (top, bottom) = rect.split_horizontaly_at(-1);
    assert_eq!(top, Rect { offset: Coord { x: 2, y: 1 }, dimensions: Coord { x: 10, y: 5 } });
    assert_eq!(bottom, Rect { offset: Coord { x: 2, y: 6 }, dimensions: Coord { x: 10, y: 1 } });
    assert!(rect.can_split_verticaly_at(9));
    assert!(!rect.can_split_verticaly_at(10));
    assert!(!rect.can_split_verticaly_at(0));
    assert!(!rect.can_split_verticaly_at(-11));
    assert!(rect.can_split_verticaly_at(-10));
    assert!(!rect.can_split_horizontaly_at(6));
    assert!(!rect.can_split_horizontaly_at(isize::MIN));
    assert!(Coord { x: 9, y: 5 }.is_inside(rect));
    assert!(!Coord { x: 10, y: 5 }.is_inside(rect));
}

#[test]
fn a_view_draws_within_its_rectangle() {
    let mut grid = Grid::new(6, 3);
    assert_eq!(grid.dimensions_rect().dimensions, Coord { x: 6, y: 3 });
    let rect = Rect { offset: Coord { x: 2, y: 1 }, dimensions: Coord { x: 3, y: 2 } };
    {
        let mut view = rect.to_renderer(&mut grid);
        assert_eq!(view.dimensions(), Coord { x: 3, y: 2 });
        view.print(Coord { x: 1, y: 0 }, "abcdef", Style::default());
        view.print_centered(Coord { x: 1, y: 1 }, "xyz", Style::default());
        view.put(Coord { x: 3, y: 0 }, '!', Style::default());
        view.set_cursor(Some(Coord { x: 1, y: 1 }));
    }
    assert_eq!(grid.rows(), vec!["......", "...ab.", "..xyz."]);
    assert_eq!(grid.cursor, Some(Coord { x: 3, y: 2 }));
}

#[test]
fn the_window_follows_the_cursor() {
    // a text shorter than the window is shown whole
    assert_eq!(visible_lines(3, 10, 5, 0), (0, 5, 0));
    // the cursor near the end of the window: the window moves on
    assert_eq!(visible_lines(18, 8, 100, 10), (12, 20, 12));
    // the cursor before the window: the window moves back
    assert_eq!(visible_lines(4, 8, 100, 10), (2, 10, 2));
    // the cursor well within the window: the window stays
    assert_eq!(visible_lines(13, 8, 100, 10), (10, 18, 10));
    // the end of the text: the window is filled
    assert_eq!(visible_lines(99, 8, 100, 0), (92, 100, 92));
}
