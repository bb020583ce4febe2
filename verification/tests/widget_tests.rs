use hej::element::{Element, IntoElement, Node};
use hej::event::Event;
use hej::layout::{Canvas, KeyboardSensitivity, Layout, Placement, Renderer};
use hej::mailbox::{channel, MailboxError, Submitter};
use hej::mapper::Mapper;
use hej::widget::{container, empty, relay, MapWidget, Widget, WidgetError};

struct Button {
    presses: u32,
    broken: bool,
}

impl Widget<u32> for Button {
    fn layout(&self) -> Layout {
        Layout { width: 10, height: 20, ..Layout::default() }
    }

    fn label(&self) -> Option<String> {
        Some("button".to_string())
    }

    fn on_event(&mut self, event: Event, client: Submitter<u32>) -> Result<(), WidgetError> {
        if self.broken {
            return Err(WidgetError { reason: "broken".to_string() });
        }
        if let Event::KeyPressed { key } = event {
            self.presses += 1;
            let _ = client.submit(key);
            let _ = client.submit(self.presses);
        }
        Ok(())
    }
}

fn sample() -> Layout {
    Layout {
        x: 1,
        y: 2,
        width: 720,
        height: 480,
        placement: Placement::Top,
        keyboard_sensitivity: KeyboardSensitivity::OnClick,
    }
}

#[test]
fn default_layout_is_zero_and_floating() {
    let layout = Layout::default();
    assert_eq!((layout.x, layout.y, layout.width, layout.height), (0, 0, 0, 0));
    assert_eq!(layout.placement, Placement::Floating);
    assert_eq!(layout.keyboard_sensitivity, KeyboardSensitivity::Never);
    assert_eq!(Placement::default(), Placement::Floating);
    assert_eq!(KeyboardSensitivity::default(), KeyboardSensitivity::Never);
}

#[test]
fn empty_widget_has_no_label_and_the_zero_layout() {
    let widget = empty();
    assert_eq!(widget.label, None);
    assert_eq!(widget.layout, Layout::default());
}

#[test]
fn empty_widget_builders_replace_one_field_each() {
    let widget = empty().label("menu").layout(sample());
    assert_eq!(widget.label, Some("menu".to_string()));
    assert_eq!(widget.layout, sample());
    let widget = widget.label(String::from("other"));
    assert_eq!(widget.label, Some("other".to_string()));
    assert_eq!(widget.layout, sample());
}

#[test]
fn element_empty_shows_nothing() {
    let element: Element<u32> = Element::empty();
    assert_eq!(element.label(), None);
    assert_eq!(element.layout(), Layout::default());
    assert_eq!(element.labels(), vec![None]);
}

#[test]
fn an_element_has_the_label_and_layout_of_its_widget() {
    let element: Element<u32> = empty().label("menu").layout(sample()).element();
    assert_eq!(element.label(), Some("menu".to_string()));
    assert_eq!(element.layout(), sample());
    let element = Button { presses: 0, broken: false }.element();
    assert_eq!(element.label(), Some("button".to_string()));
    assert_eq!(element.layout().height, 20);
}

#[test]
fn a_single_element_is_a_list_of_itself() {
    let element: Element<u32> = empty().label("menu").element();
    assert_eq!(element.labels(), vec![Some("menu".to_string())]);
    let list = element.into_list();
    assert_eq!(list.len(), 1);
    assert_eq!(list[0].label(), Some("menu".to_string()));
}

#[test]
fn a_container_unpacks_to_its_elements_in_order() {
    let build = || -> Element<u32> {
        container().with(empty().label("a")).with(empty()).with(empty().label("b")).element()
    };
    assert_eq!(build().labels(), vec![Some("a".to_string()), None, Some("b".to_string())]);
    assert_eq!(build().label(), None);
    assert_eq!(build().layout(), Layout::default());
    let list = build().into_list();
    assert_eq!(list.len(), 3);
    assert_eq!(list[2].label(), Some("b".to_string()));
    assert_eq!(container::<u32>().with(empty()).elements().len(), 1);
}

#[test]
fn an_empty_container_is_an_empty_list() {
    let element: Element<u32> = container().element();
    assert_eq!(element.labels(), Vec::<Option<String>>::new());
    assert_eq!(element.into_list().len(), 0);
}

#[test]
fn a_container_takes_no_event_and_draws_nothing() {
    let mut element: Element<u32> =
        container().with(Button { presses: 0, broken: true }).element();
    let (client, mut server) = channel::<u32>();
    assert!(element.on_event(Event::KeyPressed { key: 1 }, client).is_ok());
    assert_eq!(server.try_recv(), Err(MailboxError::Closed));
    assert!(element.draw(Canvas {}, &mut Renderer {}).is_ok());
}

#[test]
fn an_element_hands_events_to_its_widget() {
    let mut element = Button { presses: 0, broken: false }.element();
    let (client, mut server) = channel::<u32>();
    assert!(element.on_event(Event::KeyPressed { key: 42 }, client.clone()).is_ok());
    assert!(element.on_event(Event::Render, client).is_ok());
    assert_eq!(server.try_recv(), Ok(42));
    assert_eq!(server.try_recv(), Ok(1));
    assert_eq!(server.try_recv(), Err(MailboxError::Closed));
    assert!(element.draw(Canvas {}, &mut Renderer {}).is_ok());
}

#[test]
fn a_mapped_element_keeps_the_layout_and_loses_the_label() {
    let element: Element<u32> = empty().label("menu").layout(sample()).element();
    let mapped: Element<String> = element.map(Mapper::new(|n: u32| n.to_string()));
    assert_eq!(mapped.label(), None);
    assert_eq!(mapped.layout(), sample());
    assert!(matches!(mapped.node, Node::Single(_)));
    assert_eq!(mapped.labels(), vec![None]);
}

#[test]
fn a_mapped_container_is_one_element() {
    let element: Element<u32> = container().with(empty().label("a")).with(empty()).element();
    let mapped: Element<u64> = element.map(Mapper::new(|n: u32| u64::from(n)));
    assert_eq!(mapped.labels(), vec![None]);
    assert_eq!(mapped.into_list().len(), 1);
}

#[test]
fn a_mapped_element_sends_its_messages_through_the_function() {
    let element = Button { presses: 0, broken: false }.element();
    let mut mapped: Element<String> = element.map(Mapper::new(|n: u32| format!("key {}", n)));
    let (client, mut server) = channel::<String>();
    assert!(mapped.on_event(Event::KeyPressed { key: 7 }, client.clone()).is_ok());
    assert_eq!(server.try_recv(), Ok("key 7".to_string()));
    assert_eq!(server.try_recv(), Ok("key 1".to_string()));
    assert_eq!(server.try_recv(), Err(MailboxError::Empty));
    assert!(mapped.on_event(Event::PointerEntered, client).is_ok());
    assert_eq!(server.try_recv(), Err(MailboxError::Closed));
}

#[test]
fn a_mapped_element_fails_when_its_widget_fails() {
    let mut mapped: Element<String> =
        Button { presses: 0, broken: true }.element().map(Mapper::new(|n: u32| n.to_string()));
    let (client, mut server) = channel::<String>();
    match mapped.on_event(Event::KeyPressed { key: 7 }, client) {
        Err(e) => assert_eq!(e.reason, "broken"),
        Ok(()) => panic!("the failure is lost"),
    }
    assert_eq!(server.try_recv(), Err(MailboxError::Closed));
}

#[test]
fn a_mapped_element_goes_on_when_its_client_is_gone() {
    let mut mapped: Element<String> =
        Button { presses: 0, broken: false }.element().map(Mapper::new(|n: u32| n.to_string()));
    let (client, server) = channel::<String>();
    drop(server);
    assert!(mapped.on_event(Event::KeyPressed { key: 7 }, client).is_ok());
}

#[test]
fn map_widget_new_wraps_a_boxed_widget() {
    let widget = MapWidget::new(
        Box::new(Button { presses: 0, broken: false }),
        Mapper::new(|n: u32| n + 1),
    );
    assert_eq!(Widget::<u32>::label(&widget), None);
    assert_eq!(Widget::<u32>::layout(&widget).width, 10);
    assert_eq!(widget.inner.label(), Some("button".to_string()));
}

#[test]
fn a_mapper_and_its_clone_apply_the_same_function() {
    let offset = 100u32;
    let mapper = Mapper::new(move |n: u32| n + offset);
    let clone = mapper.clone();
    assert_eq!(mapper.map(1), 101);
    assert_eq!(clone.map(2), 102);
    drop(mapper);
    assert_eq!(clone.map(3), 103);
}

#[test]
fn map_all_applies_the_function_to_each_item_in_order() {
    let mapper = Mapper::new(|n: u32| n * 2);
    assert_eq!(mapper.map_all(vec![1, 2, 3]), vec![2, 4, 6]);
    assert_eq!(mapper.map_all(Vec::new()), Vec::<u32>::new());
}

#[test]
fn a_widget_that_says_nothing_takes_every_event_and_draws_nothing() {
    let mut widget = empty().label("menu");
    let (client, mut server) = channel::<u32>();
    assert!(Widget::<u32>::on_event(&mut widget, Event::KeyPressed { key: 1 }, client).is_ok());
    assert_eq!(server.try_recv(), Err(MailboxError::Closed));
    assert_eq!(widget.label, Some("menu".to_string()));
    assert!(Widget::<u32>::draw(&widget, Canvas {}, &mut Renderer {}).is_ok());
}

#[test]
fn a_mapped_container_takes_every_event_and_draws_nothing() {
    let list: Element<u32> = container().with(Button { presses: 0, broken: true }).element();
    let mut mapped: Element<u64> = list.map(Mapper::new(|n: u32| u64::from(n)));
    let (client, mut server) = channel::<u64>();
    assert!(mapped.on_event(Event::KeyPressed { key: 1 }, client).is_ok());
    assert_eq!(server.try_recv(), Err(MailboxError::Closed));
    assert!(mapped.draw(Canvas {}, &mut Renderer {}).is_ok());
}

#[test]
fn a_label_can_be_given_as_a_string_or_a_borrowed_one() {
    let owned = String::from("menu");
    assert_eq!(empty().label(&owned).label, Some("menu".to_string()));
    assert_eq!(empty().label(owned).label, Some("menu".to_string()));
    assert_eq!(empty().label("").label, Some(String::new()));
}

#[test]
fn layout_after_label_keeps_the_label_and_label_after_layout_keeps_the_layout() {
    let wide = Layout { width: 24, height: 1080, ..Layout::default() };
    let widget = empty().label("bar.left").layout(wide);
    assert_eq!(Widget::<u32>::label(&widget), Some("bar.left".to_string()));
    assert_eq!(Widget::<u32>::layout(&widget), wide);
    let widget = empty().layout(wide).label("menu");
    assert_eq!(Widget::<u32>::label(&widget), Some("menu".to_string()));
    assert_eq!(Widget::<u32>::layout(&widget).width, 24);
}

#[test]
fn a_container_lists_the_labels_it_was_built_with() {
    let element: Element<u32> =
        container().with(empty().label("bar.bottom")).with(empty().label("bar.top")).element();
    assert_eq!(
        element.labels(),
        vec![Some("bar.bottom".to_string()), Some("bar.top".to_string())]
    );
}

#[test]
fn a_container_takes_widgets_lists_and_elements() {
    let inner = container::<u32>().with(empty().label("inner"));
    let single: Element<u32> = empty().label("single").element();
    let outer: Element<u32> =
        container().with(empty().label("widget")).with(inner).with(single).element();
    assert_eq!(
        outer.labels(),
        vec![Some("widget".to_string()), None, Some("single".to_string())]
    );
    let mut list = outer.into_list();
    assert_eq!(list.len(), 3);
    assert_eq!(list.remove(1).labels(), vec![Some("inner".to_string())]);
}

#[test]
fn relay_returns_a_failure_and_sends_nothing_on() {
    let map = Mapper::new(|n: u32| n + 1);
    let (outcome, out) = relay(Err(WidgetError { reason: "broken".to_string() }), vec![1, 2], &map);
    assert_eq!(outcome.unwrap_err().reason, "broken");
    assert_eq!(out, Vec::<u32>::new());
}

#[test]
fn relay_sends_on_each_message_of_a_success_through_the_function() {
    let map = Mapper::new(|n: u32| n + 1);
    let (outcome, out) = relay(Ok(()), vec![1, 2], &map);
    assert!(outcome.is_ok());
    assert_eq!(out, vec![2, 3]);
    let (outcome, out) = relay(Ok(()), Vec::new(), &map);
    assert!(outcome.is_ok());
    assert_eq!(out, Vec::<u32>::new());
}

#[test]
fn a_mapped_element_forwards_nothing_of_a_widget_that_spoke_and_then_failed() {
    struct Talker;
    impl Widget<u32> for Talker {
        fn layout(&self) -> Layout {
            Layout::default()
        }
        fn label(&self) -> Option<String> {
            None
        }
        fn on_event(&mut self, _: Event, client: Submitter<u32>) -> Result<(), WidgetError> {
            let _ = client.submit(1);
            Err(WidgetError { reason: "late".to_string() })
        }
    }
    let mut mapped: Element<u32> = Talker.element().map(Mapper::new(|n: u32| n));
    let (client, mut server) = channel::<u32>();
    assert_eq!(mapped.on_event(Event::Render, client).unwrap_err().reason, "late");
    assert_eq!(server.try_recv(), Err(MailboxError::Closed));
}
