use hej::layout::{KeyboardSensitivity, Layout, Placement};
use hej::element::{Element, IntoElement};
use hej::widget::{container, empty};
use hej::surface::{surface_for, surface_kind, surface_of, Anchor, Registry, SurfaceError, SurfaceKind};

fn layout(placement: Placement) -> Layout {
    Layout {
        x: 600,
        y: 300,
        width: 720,
        height: 480,
        placement,
        keyboard_sensitivity: KeyboardSensitivity::Exclusive,
    }
}

fn anchor(top: bool, bottom: bool, left: bool, right: bool) -> Anchor {
    Anchor { top, bottom, left, right }
}

fn layer(anchor: Anchor, exclusive_zone: u32) -> SurfaceKind {
    SurfaceKind::Layer {
        anchor,
        keyboard: KeyboardSensitivity::Exclusive,
        width: 720,
        height: 480,
        exclusive_zone,
        margin_top: 300,
        margin_left: 600,
    }
}

fn opt(labels: &[Option<&str>]) -> Vec<Option<String>> {
    labels.iter().map(|l| l.map(|s| s.to_string())).collect()
}

#[test]
fn a_windowed_element_gets_a_window() {
    assert_eq!(surface_kind(&layout(Placement::Windowed)), SurfaceKind::Window);
}

#[test]
fn a_layer_at_the_top_or_bottom_keeps_its_height_free() {
    assert_eq!(
        surface_kind(&layout(Placement::Top)),
        layer(anchor(true, false, false, false), 480)
    );
    assert_eq!(
        surface_kind(&layout(Placement::Bottom)),
        layer(anchor(false, true, false, false), 480)
    );
}

#[test]
fn a_layer_at_a_side_keeps_its_width_free() {
    assert_eq!(
        surface_kind(&layout(Placement::Left)),
        layer(anchor(false, false, true, false), 720)
    );
    assert_eq!(
        surface_kind(&layout(Placement::Right)),
        layer(anchor(false, false, false, true), 720)
    );
}

#[test]
fn a_floating_layer_sits_at_the_top_left_and_keeps_nothing_free() {
    assert_eq!(
        surface_kind(&layout(Placement::Floating)),
        layer(anchor(true, false, true, false), 0)
    );
}

#[test]
fn a_new_label_gets_a_surface_and_a_live_one_does_not() {
    let mut registry = Registry::new();
    assert_eq!(registry.submit(&opt(&[Some("a"), None, Some("b")])), vec![true, false, true]);
    assert!(registry.is_live(&"a".to_string()));
    assert!(registry.is_live(&"b".to_string()));
    assert_eq!(registry.submit(&opt(&[Some("b"), Some("c")])), vec![false, true]);
    assert!(registry.is_live(&"c".to_string()));
}

#[test]
fn of_two_elements_with_one_label_the_first_gets_the_surface() {
    let mut registry = Registry::new();
    assert_eq!(registry.submit(&opt(&[Some("a"), Some("a")])), vec![true, false]);
}

#[test]
fn closing_a_label_frees_it_and_no_other() {
    let mut registry = Registry::new();
    registry.submit(&opt(&[Some("a"), Some("b"), Some("c")]));
    assert!(registry.close(&"b".to_string()));
    assert!(!registry.is_live(&"b".to_string()));
    assert!(registry.is_live(&"a".to_string()));
    assert!(registry.is_live(&"c".to_string()));
    assert!(!registry.close(&"b".to_string()));
    assert_eq!(registry.submit(&opt(&[Some("b")])), vec![true]);
}

#[test]
fn closing_an_unknown_label_changes_nothing() {
    let mut registry = Registry::new();
    assert!(!registry.close(&"x".to_string()));
    registry.submit(&opt(&[Some("a")]));
    assert!(!registry.close(&"x".to_string()));
    assert!(registry.is_live(&"a".to_string()));
}

#[test]
fn no_surface_is_made_for_an_element_without_a_label() {
    for placement in [Placement::Windowed, Placement::Top, Placement::Floating] {
        assert_eq!(surface_for(None, &layout(placement)).err(), Some(SurfaceError::NoLabel));
    }
}

#[test]
fn a_labelled_element_gets_a_window_or_a_layer_by_its_name() {
    let window = surface_for(Some("menu".to_string()), &layout(Placement::Windowed)).unwrap();
    assert_eq!(window.name, "menu");
    assert_eq!(window.kind, SurfaceKind::Window);
    for placement in
        [Placement::Top, Placement::Bottom, Placement::Left, Placement::Right, Placement::Floating]
    {
        let surface = surface_for(Some("bar".to_string()), &layout(placement)).unwrap();
        assert_eq!(surface.name, "bar");
        assert_eq!(surface.kind, surface_kind(&layout(placement)));
        assert!(matches!(surface.kind, SurfaceKind::Layer { .. }));
    }
}

#[test]
fn an_element_gets_a_surface_if_and_only_if_it_has_a_label() {
    let bar: Element<u8> = empty().label("bar").layout(layout(Placement::Top)).element();
    let surface = surface_of(&bar).unwrap();
    assert_eq!(surface.name, "bar");
    assert_eq!(surface.kind, surface_kind(&layout(Placement::Top)));
    let bare: Element<u8> = empty().layout(layout(Placement::Windowed)).element();
    assert_eq!(surface_of(&bare).err(), Some(SurfaceError::NoLabel));
    let list: Element<u8> = container().with(empty().label("inner")).element();
    assert_eq!(surface_of(&list).err(), Some(SurfaceError::NoLabel));
}
