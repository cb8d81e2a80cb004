//! How an application renders its model.
use vstd::prelude::*;

verus! {

/// Turns a model into what the terminal draws.
///
/// In ratatui, some widgets need a mutable reference to their state while
/// they render, so the model is lent mutably.
pub trait ViewFn<'a, Model, Msg: Send + 'static> {
    type View;

    /// Whether `view` may be called on `model`.
    spec fn can_view(&self, model: &'a mut Model) -> bool;

    /// Whether `view` may give `view` when lent a model that held `before`.
    spec fn viewed(&self, before: Model, view: Self::View) -> bool;

    fn view(&self, model: &'a mut Model) -> (r: Self::View)
        requires
            self.can_view(old(model)),
        ensures
            self.viewed(*old(model), r),
    ;
}

impl<'a, F, Model, View, Msg> ViewFn<'a, Model, Msg> for F where
    Model: 'a,
    F: Fn(&'a mut Model) -> View,
    Msg: Send + 'static,
 {
    type View = View;

    open spec fn can_view(&self, model: &'a mut Model) -> bool {
        forall|m: &'a mut Model| *m == *model ==> call_requires(*self, (m,))
    }

    open spec fn viewed(&self, before: Model, view: View) -> bool {
        exists|m: &'a mut Model| *m == before && call_ensures(*self, (m,), view)
    }

    fn view(&self, model: &'a mut Model) -> View {
        self(model)
    }
}

} // verus!
