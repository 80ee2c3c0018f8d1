use teamwork_launcher::application::views::Views;

#[derive(Eq, PartialEq, Debug)]
enum TestViews {
    View1,
    View2,
}

#[test]
fn test_new() {
    let views = Views::new(TestViews::View1);

    assert!(!views.is_empty());
}

#[test]
fn test_push() {
    let mut views = Views::new(TestViews::View1);

    views.push(TestViews::View2);

    assert_eq!(Some(&TestViews::View2), views.current());
}

#[test]
fn test_pop() {
    let mut views = Views::new(TestViews::View1);

    views.pop();

    assert!(views.is_empty());
}

#[test]
fn views_change_replaces_the_current_view() {
    let mut views = Views::new(TestViews::View1);

    views.change(TestViews::View2);
    assert_eq!(Some(&TestViews::View2), views.current());
    views.pop();
    assert!(views.is_empty());
}
