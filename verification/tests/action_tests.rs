use std::cell::RefCell;
use std::rc::Rc;

use seahorse::Action;
use seahorse::Context;

fn context_with(args: &[&str]) -> Context {
    Context { args: args.iter().map(|s| s.to_string()).collect() }
}

#[test]
fn run_invokes_callback_with_context() {
    let seen: Rc<RefCell<Vec<String>>> = Rc::new(RefCell::new(Vec::new()));
    let sink = Rc::clone(&seen);
    let action = Action::new(move |c: &Context| {
        sink.borrow_mut().push(c.args[0].clone());
    });
    let ctx = context_with(&["hello"]);
    action.run(&ctx);
    assert_eq!(*seen.borrow(), vec!["hello".to_string()]);
}

#[test]
fn run_twice_with_different_contexts_is_independent() {
    let seen: Rc<RefCell<Vec<String>>> = Rc::new(RefCell::new(Vec::new()));
    let sink = Rc::clone(&seen);
    let action = Action::new(move |c: &Context| {
        sink.borrow_mut().push(c.args[0].clone());
    });
    let first = context_with(&["first"]);
    let second = context_with(&["second"]);
    action.run(&first);
    action.run(&second);
    assert_eq!(*seen.borrow(), vec!["first".to_string(), "second".to_string()]);
}

#[test]
fn cloned_handle_shares_the_callback() {
    let count: Rc<RefCell<usize>> = Rc::new(RefCell::new(0));
    let sink = Rc::clone(&count);
    let action = Action::new(move |_c: &Context| {
        *sink.borrow_mut() += 1;
    });
    let copy = action.clone();
    let ctx = context_with(&["x"]);
    action.run(&ctx);
    copy.run(&ctx);
    assert_eq!(*count.borrow(), 2);
}
