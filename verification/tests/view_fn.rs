use rata_tea::ViewFn;

fn render<'a, V: ViewFn<'a, u32, ()>>(view: &V, model: &'a mut u32) -> V::View {
    view.view(model)
}

#[test]
fn a_closure_is_a_view_function() {
    let mut model = 3u32;
    let text = render(&|m: &mut u32| {
        *m += 1;
        format!("count {}", m)
    }, &mut model);
    assert_eq!(text, "count 4");
    assert_eq!(model, 4);
}
