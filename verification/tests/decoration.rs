use atomicwm::window::decoration::{DecorationHit, HitRegions};

fn regions() -> HitRegions {
    HitRegions {
        outer: true,
        close_button: false,
        titlebar: false,
        border_top: false,
        border_right: false,
        border_bottom: false,
        border_left: false,
        content: false,
    }
}

#[test]
fn outside_outer_rect_hits_nothing() {
    let r = HitRegions { outer: false, content: true, ..regions() };

    assert_eq!(r.hit(), DecorationHit::Miss);
}

#[test]
fn close_button_has_priority_over_titlebar() {
    let r = HitRegions { close_button: true, titlebar: true, border_top: true, ..regions() };

    assert_eq!(r.hit(), DecorationHit::CloseButton);
}

#[test]
fn titlebar_has_priority_over_borders() {
    let r = HitRegions { titlebar: true, border_left: true, content: true, ..regions() };

    assert_eq!(r.hit(), DecorationHit::Titlebar);
}

#[test]
fn borders_in_order_top_right_bottom_left() {
    assert_eq!(
        HitRegions { border_top: true, border_left: true, ..regions() }.hit(),
        DecorationHit::BorderTop
    );
    assert_eq!(
        HitRegions { border_right: true, border_bottom: true, ..regions() }.hit(),
        DecorationHit::BorderRight
    );
    assert_eq!(
        HitRegions { border_bottom: true, border_left: true, ..regions() }.hit(),
        DecorationHit::BorderBottom
    );
    assert_eq!(
        HitRegions { border_left: true, content: true, ..regions() }.hit(),
        DecorationHit::BorderLeft
    );
}

#[test]
fn content_comes_last() {
    assert_eq!(HitRegions { content: true, ..regions() }.hit(), DecorationHit::Content);
    assert_eq!(regions().hit(), DecorationHit::Miss);
}
