use canvas_diagram::coords::{
    canvas_min_to_modelica_center, canvas_to_modelica, modelica_to_canvas, ModelicaPos,
};
use canvas_diagram::fixed::Fixed;
use canvas_diagram::geometry::{
    port_edge_dir, port_fallback_offset, rect_contains_rect, rect_union, route_orthogonal,
    segment_dist_sq, step, wire_hit, wire_hovered, PortDir, Pos, Rect,
};

fn at(x: i32, y: i32) -> Pos {
    Pos::new(Fixed::whole(x), Fixed::whole(y))
}

fn rect(x1: i32, y1: i32, x2: i32, y2: i32) -> Rect {
    Rect { min: at(x1, y1), max: at(x2, y2) }
}

#[test]
fn perpendicular_ports_meet_at_one_corner() {
    let r = route_orthogonal(at(0, 0), PortDir::Right, at(50, 40), PortDir::Up, Fixed::whole(18));
    assert_eq!(r, vec![at(0, 0), at(50, 0), at(50, 40)]);
}

#[test]
fn facing_ports_on_one_line_are_joined_by_it() {
    let r = route_orthogonal(at(0, 0), PortDir::Right, at(90, 0), PortDir::Left, Fixed::whole(18));
    assert_eq!(r[0], at(0, 0));
    assert_eq!(*r.last().unwrap(), at(90, 0));
    assert!(r.iter().all(|p| p.y == Fixed::whole(0)));
}

#[test]
fn facing_ports_meet_half_way() {
    let r = route_orthogonal(at(0, 0), PortDir::Right, at(100, 40), PortDir::Left, Fixed::whole(18));
    assert_eq!(
        r,
        vec![
            at(0, 0),
            at(18, 0),
            at(50, 0),
            at(50, 20),
            at(82, 20),
            at(82, 40),
            at(100, 40)
        ]
    );
}

#[test]
fn every_route_ends_at_both_ports() {
    let dirs = [PortDir::Left, PortDir::Right, PortDir::Up, PortDir::Down, PortDir::Inside];
    for a in dirs {
        for b in dirs {
            for to in [at(70, 30), at(-70, 30), at(0, -50), at(5, 5), at(0, 0)] {
                let r = route_orthogonal(at(0, 0), a, to, b, Fixed::whole(18));
                assert_eq!(r[0], at(0, 0));
                assert_eq!(r[r.len() - 1], to);
            }
        }
    }
}

#[test]
fn canvas_y_is_mirrored() {
    assert_eq!(
        canvas_to_modelica(at(3, 4)),
        ModelicaPos::new(Fixed::whole(3), Fixed::whole(-4))
    );
    assert_eq!(modelica_to_canvas(canvas_to_modelica(at(3, 4))), at(3, 4));
    assert_eq!(
        canvas_min_to_modelica_center(at(10, 10), Fixed::whole(20), Fixed::whole(20)),
        ModelicaPos::new(Fixed::whole(20), Fixed::whole(-20))
    );
}

#[test]
fn directions_are_known_by_their_names() {
    for d in [PortDir::Left, PortDir::Right, PortDir::Up, PortDir::Down, PortDir::Inside] {
        assert_eq!(PortDir::from_str(d.as_str()), d);
    }
    assert_eq!(PortDir::from_str("sideways"), PortDir::Inside);
    assert_eq!(PortDir::Up.outward(), (0, -1));
    assert_eq!(PortDir::Inside.outward(), (0, 0));
    assert_eq!(step(at(1, 2), PortDir::Left, Fixed::whole(5)), at(-4, 2));
    assert_eq!(step(at(1, 2), PortDir::Inside, Fixed::whole(5)), at(1, 2));
}

#[test]
fn the_larger_component_picks_the_edge() {
    assert_eq!(port_edge_dir(Fixed::whole(1), Fixed::whole(0)), PortDir::Right);
    assert_eq!(port_edge_dir(Fixed::whole(-1), Fixed::whole(1)), PortDir::Left);
    assert_eq!(port_edge_dir(Fixed::whole(0), Fixed::whole(-1)), PortDir::Up);
    assert_eq!(port_edge_dir(Fixed::ratio(1, 2), Fixed::whole(1)), PortDir::Down);
    assert_eq!(port_edge_dir(Fixed::ratio(1, 5), Fixed::ratio(1, 5)), PortDir::Inside);
}

#[test]
fn ports_without_a_place_alternate_between_the_sides() {
    assert_eq!(port_fallback_offset(0, 3), at(0, 10));
    assert_eq!(port_fallback_offset(1, 3), at(20, 10));
    assert_eq!(port_fallback_offset(2, 3), at(0, 5));
    assert_eq!(port_fallback_offset(9, 10), at(20, 0));
}

#[test]
fn clicks_hit_a_wire_within_four_units() {
    assert!(wire_hit(at(50, 4), at(0, 0), at(100, 0)));
    assert!(!wire_hit(at(50, 5), at(0, 0), at(100, 0)));
    assert!(!wire_hit(at(105, 0), at(0, 0), at(100, 0)));
    assert!(wire_hit(at(52, 20), at(0, 0), at(100, 40)));
    assert!(!wire_hit(at(20, 20), at(0, 0), at(100, 40)));
    assert_eq!(segment_dist_sq(at(3, 4), at(0, 0), at(0, 0)), Fixed::whole(25));
}

#[test]
fn the_pointer_hovers_within_eight_pixels() {
    let path = vec![at(0, 0), at(100, 0), at(100, 50)];
    assert!(wire_hovered(at(50, 8), &path));
    assert!(!wire_hovered(at(50, 9), &path));
    assert!(wire_hovered(at(93, 30), &path));
    assert!(!wire_hovered(at(0, 0), &vec![at(0, 0)]));
}

#[test]
fn rectangles() {
    assert!(rect_contains_rect(rect(0, 0, 100, 100), rect(20, 20, 80, 80)));
    assert!(!rect_contains_rect(rect(0, 0, 100, 100), rect(19, 20, 80, 80)));
    assert_eq!(rect_union(rect(0, 0, 1, 1), rect(-5, 3, 0, 4)), rect(-5, 0, 1, 4));
    assert_eq!(rect(0, 0, 30, 10).center(), at(15, 5));
}
