//! The control-sequence tokens that drive the virtual terminal, and the
//! tokenizer that produces them from raw output bytes (the `vte` parser).
use vstd::prelude::*;
use vstd::slice::slice_to_vec;

verus! {

/// One callback of the ANSI parser that the terminal acts on.
#[derive(Debug, Clone)]
pub enum VtAction {
    /// A printable character.
    Print(char),
    /// A C0/C1 control byte.
    Execute(u8),
    /// A complete CSI sequence: its parameter groups (each a parameter with
    /// its sub-parameters), its intermediate bytes (private markers such as
    /// `?` among them) and its final character.
    Csi { params: Vec<Vec<u16>>, intermediates: Vec<u8>, action: char },
}

/// Mathematical counterpart of [`VtAction`].
pub enum ActionView {
    Print(char),
    Execute(u8),
    Csi(Seq<Seq<u16>>, Seq<u8>, char),
}

pub open spec fn groups_view(params: Seq<Vec<u16>>) -> Seq<Seq<u16>> {
    params.map_values(|p: Vec<u16>| p@)
}

impl View for VtAction {
    type V = ActionView;

    open spec fn view(&self) -> ActionView {
        match self {
            VtAction::Print(c) => ActionView::Print(*c),
            VtAction::Execute(b) => ActionView::Execute(*b),
            VtAction::Csi { params, intermediates, action } => ActionView::Csi(
                groups_view(params@),
                intermediates@,
                *action,
            ),
        }
    }
}

pub open spec fn actions_view(actions: Seq<VtAction>) -> Seq<ActionView> {
    actions.map_values(|a: VtAction| a@)
}

/// Every parameter group of a CSI action holds at least one value.
pub open spec fn groups_nonempty(a: ActionView) -> bool {
    match a {
        ActionView::Csi(params, _, _) => forall|j: int| 0 <= j < params.len() ==> #[trigger] params[j].len() > 0,
        _ => true,
    }
}

/// Every parameter group of every CSI action holds at least one value.
pub open spec fn csi_groups_nonempty(actions: Seq<ActionView>) -> bool {
    forall|i: int| 0 <= i < actions.len() ==> groups_nonempty(#[trigger] actions[i])
}

/// The print, execute and CSI-dispatch callbacks, in order, that a freshly
/// made `vte::Parser` performs when it is advanced over the given bytes one
/// at a time.
pub uninterp spec fn vte_actions(data: Seq<u8>) -> Seq<ActionView>;

#[verifier::external_type_specification]
#[verifier::external_body]
pub struct ExParams(vte::Params);

/// `vte::Params::iter`, each group copied out: the parameter groups of a CSI
/// sequence.  vte's iterator hands out one slice per parameter, of length
/// "number of sub-parameters + 1", so no group is empty.  What the groups
/// hold is not stated here, as `Params` is opaque; it is covered by the
/// name [`vte_actions`].
#[verifier::external_body]
fn param_groups(params: &vte::Params) -> (groups: Vec<Vec<u16>>)
    ensures
        forall|j: int| 0 <= j < groups@.len() ==> #[trigger] groups@[j]@.len() > 0,
{
    params.iter().map(|p| p.to_vec()).collect()
}

/// Records the callbacks of the parser.
struct ActionLog {
    actions: Vec<VtAction>,
}

impl ActionLog {
    /// The callbacks recorded so far, in order.
    pub closed spec fn logged(&self) -> Seq<ActionView> {
        actions_view(self.actions@)
    }
}

impl vte::Perform for ActionLog {
    fn print(&mut self, c: char)
        ensures
            final(self).logged() == old(self).logged().push(ActionView::Print(c)),
    {
        let ghost before = self.actions@;
        self.actions.push(VtAction::Print(c));
        assert(actions_view(self.actions@) =~= actions_view(before).push(ActionView::Print(c)));
    }

    fn execute(&mut self, byte: u8)
        ensures
            final(self).logged() == old(self).logged().push(ActionView::Execute(byte)),
    {
        let ghost before = self.actions@;
        self.actions.push(VtAction::Execute(byte));
        assert(actions_view(self.actions@) =~= actions_view(before).push(ActionView::Execute(byte)));
    }

    /// Records the sequence with its parameter groups (each non-empty; their
    /// values are read from the opaque `vte::Params`), its intermediates and
    /// its final character.
    fn csi_dispatch(&mut self, params: &vte::Params, intermediates: &[u8], _ignore: bool, action: char)
        ensures
            final(self).logged().len() == old(self).logged().len() + 1,
            final(self).logged().drop_last() == old(self).logged(),
            final(self).logged().last() matches ActionView::Csi(_, inter, a) && inter == intermediates@ && a
                == action,
            groups_nonempty(final(self).logged().last()),
    {
        let ghost before = self.actions@;
        let groups = param_groups(params);
        let inter = slice_to_vec(intermediates);
        self.actions.push(VtAction::Csi { params: groups, intermediates: inter, action });
        assert(actions_view(self.actions@).drop_last() =~= actions_view(before));
        assert(actions_view(self.actions@).last() == self.actions@.last()@);
    }
}

/// `vte::Parser::new` followed by `advance` on each byte of `data`: the
/// parser's callbacks that the terminal acts on, in order.  The contract
/// names the sequence ([`vte_actions`], a function of the bytes alone since
/// the parser starts fresh) and states that no CSI parameter group is empty
/// (see [`param_groups`]); the parser's state machine itself is not stated.
#[verifier::external_body]
pub(crate) fn vte_tokenize(data: &[u8]) -> (actions: Vec<VtAction>)
    ensures
        actions_view(actions@) == vte_actions(data@),
        csi_groups_nonempty(actions_view(actions@)),
{
    let mut log = ActionLog { actions: Vec::new() };
    let mut parser = vte::Parser::new();
    for &byte in data {
        parser.advance(&mut log, byte);
    }
    log.actions
}

} // verus!
