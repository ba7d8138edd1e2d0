use vstd::prelude::*;
use vstd::string::*;
use crate::diff::{diff_proxies, diff_spec, law_unchanged_is_no_change, ChangeView, TrayUpdateType, UpdateView};
use crate::model::{GroupView, ProxyRecords};
use crate::store::SnapshotStore;

verus! {

/// The identifier under which the menu holds the entry of a proxy in a group:
/// the group's name, an underscore and the proxy's name.
pub open spec fn join_key(group: Seq<char>, name: Seq<char>) -> Seq<char> {
    group + "_"@ + name
}

/// Builds the identifier of a proxy's menu entry.
pub fn composite_key(group: &str, name: &str) -> (r: String)
    ensures
        r@ == join_key(group@, name@),
{
    let mut key = String::from_str(group);
    key.append("_");
    key.append(name);
    key
}

/// One command to the menu.
#[derive(Clone, Debug, PartialEq, Eq)]
pub enum UiCommand {
    /// Build the whole menu anew from the current records.
    Rebuild,
    /// Unmark the entry of the first identifier and mark that of the second.
    ApplySelection(String, String),
}

/// Mathematical value of a [`UiCommand`].
pub ghost enum CommandView {
    Rebuild,
    ApplySelection(Seq<char>, Seq<char>),
}

impl View for UiCommand {
    type V = CommandView;

    open spec fn view(&self) -> CommandView {
        match self {
            UiCommand::Rebuild => CommandView::Rebuild,
            UiCommand::ApplySelection(from, to) => CommandView::ApplySelection(from@, to@),
        }
    }
}

/// The values of a list of commands.
pub open spec fn commands_view(v: Seq<UiCommand>) -> Seq<CommandView> {
    Seq::new(v.len(), |i: int| v[i]@)
}

/// The command that moves one selection.
pub open spec fn command_of(change: ChangeView) -> CommandView {
    CommandView::ApplySelection(join_key(change.0, change.1), join_key(change.0, change.2))
}

/// The commands that follow from a classification, in the order in which they
/// are to be carried out.
pub open spec fn commands_for(update: UpdateView) -> Seq<CommandView> {
    match update {
        UpdateView::NoChange => Seq::empty(),
        UpdateView::FullRebuild => seq![CommandView::Rebuild],
        UpdateView::PartialUpdate(list) => Seq::new(list.len(), |i: int| command_of(list[i])),
    }
}

/// The records that count as applied after a classification: the old ones
/// where nothing was found to do, the current ones otherwise.
pub open spec fn applied_after(old: Seq<GroupView>, current: Seq<GroupView>) -> Seq<GroupView> {
    if diff_spec(old, current) == UpdateView::NoChange {
        old
    } else {
        current
    }
}

/// Once the menu was reconciled with some records, reconciling it with the
/// same records again asks for no command and leaves what counts as applied.
pub proof fn law_reconcile_settles(old: Seq<GroupView>, current: Seq<GroupView>)
    ensures
        commands_for(diff_spec(applied_after(old, current), current)) == Seq::<CommandView>::empty(),
        applied_after(applied_after(old, current), current) == applied_after(old, current),
{
    law_unchanged_is_no_change(current);
}

/// What waiting for the next notification gave.
#[derive(Clone, Copy, Debug, PartialEq, Eq, Structural)]
pub enum Wake {
    /// The records were refreshed.
    Notified,
    /// Receiving failed, but the source is still open.
    Failed,
    /// The source is closed for good.
    Closed,
}

/// What the loop does after a wake.
#[derive(Clone, Copy, Debug, PartialEq, Eq, Structural)]
pub enum Step {
    /// Read the current records and reconcile the menu with them.
    Reconcile,
    /// No menu host is attached: warn and wait for the next notification.
    SkipHostAbsent,
    /// Warn and receive again.
    Retry,
    /// End the task.
    Stop,
}

/// The step that follows a wake.
pub open spec fn step_spec(wake: Wake, host_attached: bool) -> Step {
    match wake {
        Wake::Notified => if host_attached {
            Step::Reconcile
        } else {
            Step::SkipHostAbsent
        },
        Wake::Failed => Step::Retry,
        Wake::Closed => Step::Stop,
    }
}

/// Decides what the loop does after a wake, given whether a menu host is
/// attached at that moment.
pub fn on_wake(wake: Wake, host_attached: bool) -> (step: Step)
    ensures
        step == step_spec(wake, host_attached),
{
    match wake {
        Wake::Notified => {
            if host_attached {
                Step::Reconcile
            } else {
                Step::SkipHostAbsent
            }
        },
        Wake::Failed => Step::Retry,
        Wake::Closed => Step::Stop,
    }
}

/// Turns a classification into the commands to the menu.
pub fn commands_of_update(update: &TrayUpdateType) -> (cmds: Vec<UiCommand>)
    ensures
        commands_view(cmds@) == commands_for(update@),
{
    let mut cmds: Vec<UiCommand> = Vec::new();
    match update {
        TrayUpdateType::NoChange => {
            assert(commands_view(cmds@) =~= commands_for(update@));
        },
        TrayUpdateType::FullRebuild => {
            cmds.push(UiCommand::Rebuild);
            assert(commands_view(cmds@) =~= commands_for(update@));
        },
        TrayUpdateType::PartialUpdate(action_list) => {
            let mut i: usize = 0;
            while i < action_list.len()
                invariant
                    i <= action_list@.len(),
                    update@ == UpdateView::PartialUpdate(crate::diff::changes_view(action_list@)),
                    cmds@.len() == i,
                    forall|j: int| 0 <= j < i ==> (#[trigger] cmds@[j])@ == commands_for(update@)[j],
                decreases action_list@.len() - i,
            {
                let action = &action_list[i];
                let from = composite_key(action.0.as_str(), action.1.as_str());
                let to = composite_key(action.0.as_str(), action.2.as_str());
                cmds.push(UiCommand::ApplySelection(from, to));
                i = i + 1;
            }
            assert(commands_view(cmds@) =~= commands_for(update@));
        },
    }
    cmds
}

/// The reconciler's memory: the records that the menu was last brought in
/// line with.
#[derive(Clone, Debug)]
pub struct Reconciler {
    pub last_applied: ProxyRecords,
}

impl Reconciler {
    /// Starts from the records as they are when the task begins.
    pub fn new(initial: ProxyRecords) -> (r: Reconciler)
        ensures
            r.last_applied@ == initial@,
    {
        Reconciler { last_applied: initial }
    }

    /// Starts from the groups that a store holds when the task begins.
    pub fn start(store: &SnapshotStore) -> (r: Reconciler)
        ensures
            r.last_applied@ == store@.groups,
    {
        Reconciler { last_applied: store.read().groups.duplicate() }
    }

    /// Compares the current records with those last applied and hands back
    /// the commands that bring the menu in line. The current records count as
    /// applied afterwards, whether or not each command then succeeds, unless
    /// nothing was found to do.
    pub fn reconcile(&mut self, current: ProxyRecords) -> (cmds: Vec<UiCommand>)
        ensures
            commands_view(cmds@) == commands_for(diff_spec(old(self).last_applied@, current@)),
            final(self).last_applied@ == applied_after(old(self).last_applied@, current@),
    {
        let update = diff_proxies(&self.last_applied, &current);
        let cmds = commands_of_update(&update);
        match update {
            TrayUpdateType::NoChange => {},
            _ => {
                self.last_applied = current;
            },
        }
        cmds
    }
}

/// What the two background tasks start from: the store that the refresher
/// fills, and the reconciler's memory of what the menu shows.
pub struct ProxyTasks {
    pub store: SnapshotStore,
    pub reconciler: Reconciler,
}

/// Sets up the state of the two background tasks: a store that was never
/// refreshed, and a reconciler that counts the store's groups as applied.
pub fn setup_proxies() -> (tasks: ProxyTasks)
    ensures
        tasks.store@ == crate::store::initial_snapshot(),
        tasks.reconciler.last_applied@ == tasks.store@.groups,
{
    let store = SnapshotStore::new();
    let reconciler = Reconciler::start(&store);
    ProxyTasks { store, reconciler }
}

} // verus!
