use hhbc::emitter::{Context, DynState, Emitter, GlobalState, Options};
use hhbc::iterator::Iter;
use hhbc::label::{Gen as LabelGen, Label};
use hhbc::local::{Gen as LocalGen, Type as LocalType};

#[test]
fn label_generator_is_monotonic() {
    let mut g = LabelGen::new();
    assert_eq!(g.next_regular(), Label::Regular(0));
    assert_eq!(g.next_regular(), Label::Regular(1));
    assert_eq!(g.next_regular(), Label::Regular(2));
}

#[test]
fn local_generator_is_monotonic() {
    let mut g = LocalGen::new();
    assert_eq!(g.next_unnamed(), LocalType::Unnamed(0));
    assert_eq!(g.next_unnamed(), LocalType::Unnamed(1));
}

#[test]
fn iterator_generator_is_monotonic() {
    let mut it = Iter::new();
    assert_eq!(it.next_id(), 0);
    assert_eq!(it.next_id(), 1);
    assert_eq!(it.next_id(), 2);
}

#[test]
fn emitter_owns_independent_generators() {
    let mut e = Emitter::new(Options::default(), GlobalState::default());
    assert_eq!(e.label_gen_mut().next_regular(), Label::Regular(0));
    assert_eq!(e.local_gen_mut().next_unnamed(), LocalType::Unnamed(0));
    assert_eq!(e.iterator_mut().next_id(), 0);
    // Each generator counts on its own.
    assert_eq!(e.label_gen_mut().next_regular(), Label::Regular(1));
    assert_eq!(e.local_gen_mut().next_unnamed(), LocalType::Unnamed(1));
    assert_eq!(e.iterator_mut().next_id(), 1);
}

#[test]
fn emitter_systemlib_flag_round_trips() {
    let mut e = Emitter::new(Options::default(), GlobalState::default());
    assert!(!e.systemlib());
    e.set_systemlib(true);
    assert!(e.systemlib());
    e.set_systemlib(false);
    assert!(!e.systemlib());
}

#[test]
fn emitter_salvages_options() {
    let e = Emitter::new(Options::default(), GlobalState::default());
    let opts = e.into_options();
    assert_eq!(opts, Options::default());
}

#[test]
fn dyn_state_initializes_once() {
    let mut s: DynState<u32> = DynState::new();
    assert!(s.as_ref().is_none());
    {
        let v = s.get_or_init(|| 41u32);
        *v += 1;
    }
    assert_eq!(s.as_ref(), Some(&42u32));
    // A later init closure is ignored: the slot is already filled.
    let v = s.get_or_init(|| 7u32);
    assert_eq!(*v, 42u32);
}
