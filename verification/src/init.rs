//! Start-up of the store: connecting, creating the tables in the order their
//! references need, making sure a user exists, and loading the chat models.
use vstd::prelude::*;
use crate::config::ConfigData;
use crate::store::{
    active_llm_providers, configs_map, enter_providers, has_any_user, LlmConfig, LlmConfigView,
    NewUser, ProviderModels,
};

verus! {

/// The tables of the store.
#[derive(PartialEq, Eq, Structural, Clone, Copy, Debug)]
pub enum Table {
    Users,
    Sessions,
    SessionMessages,
    Providers,
    ProvidersLlm,
}

/// How many tables there are.
pub const TABLE_COUNT: usize = 5;

/// The order in which the tables are created.
pub open spec fn table_order() -> Seq<Table> {
    seq![Table::Users, Table::Sessions, Table::SessionMessages, Table::Providers, Table::ProvidersLlm]
}

/// The table whose rows the rows of `t` refer to, if any.
pub open spec fn parent(t: Table) -> Option<Table> {
    match t {
        Table::Sessions => Some(Table::Users),
        Table::SessionMessages => Some(Table::Sessions),
        Table::ProvidersLlm => Some(Table::Providers),
        _ => None,
    }
}

/// Each table comes after the table its rows refer to, and no table comes twice.
pub proof fn lemma_table_order_respects_references()
    ensures
        forall|i: int| #![trigger table_order()[i]] 0 <= i < table_order().len() && parent(table_order()[i]) is Some
            ==> exists|j: int| 0 <= j < i && table_order()[j] == parent(table_order()[i])->0,
        forall|i: int, j: int| 0 <= i < j < table_order().len() ==> table_order()[i] != table_order()[j],
{
    let o = table_order();
    assert(o[1] == Table::Sessions && o[0] == Table::Users);
    assert(o[2] == Table::SessionMessages && o[1] == Table::Sessions);
    assert(o[4] == Table::ProvidersLlm && o[3] == Table::Providers);
}

/// The `i`-th table to create.
pub fn table_at(i: usize) -> (t: Table)
    requires
        i < TABLE_COUNT,
    ensures
        t == table_order()[i as int],
{
    match i {
        0 => Table::Users,
        1 => Table::Sessions,
        2 => Table::SessionMessages,
        3 => Table::Providers,
        _ => Table::ProvidersLlm,
    }
}

/// The error text when the chat models were already installed.
pub open spec fn already_installed_text() -> Seq<char> {
    "providers 已初始化"@
}

/// Where start-up stands.
#[derive(PartialEq, Eq, Structural, Clone, Copy, Debug)]
pub enum InitStage {
    Start,
    Connecting,
    CreatingTables { done: usize },
    CountingUsers,
    MakingUser,
    CreatingUser,
    LoadingProviders,
    Installing,
    Finished,
}

/// What the caller reports back after carrying out the previous action.
pub enum InitInput {
    Begin,
    Connected,
    TableCreated,
    UsersCounted(u64),
    /// The default user to store, or the error text where it could not be made.
    DefaultUserMade(Result<NewUser, String>),
    UserCreated(i32),
    ProvidersLoaded(Vec<ProviderModels>),
    /// Whether the chat models could be installed (they had not been before).
    Installed(bool),
    Failed(String),
}

/// What the caller is to do next.
pub enum InitAction {
    /// Connect to the database at `url`.
    Connect { url: String },
    /// Create the table if it does not exist yet.
    CreateTable(Table),
    /// Count the users.
    CountUsers,
    /// Make the default user (hash its password).
    MakeDefaultUser,
    /// Store the user.
    InsertUser(NewUser),
    /// Load every provider together with its chat models.
    LoadProviders,
    /// Install the chat models for the rest of the run.
    Install(Vec<LlmConfig>),
    /// Start-up is over.
    Finish(Result<(), String>),
}

pub enum InitInputView {
    Begin,
    Connected,
    TableCreated,
    UsersCounted(u64),
    DefaultUserMade(Result<(Seq<char>, Seq<char>), Seq<char>>),
    UserCreated(i32),
    ProvidersLoaded(Seq<ProviderModels>),
    Installed(bool),
    Failed(Seq<char>),
}

pub enum InitActionView {
    Connect { url: Seq<char> },
    CreateTable(Table),
    CountUsers,
    MakeDefaultUser,
    InsertUser { username: Seq<char>, password_hash: Seq<char> },
    LoadProviders,
    Install(Map<Seq<char>, LlmConfigView>),
    Finish(Result<(), Seq<char>>),
}

impl View for InitInput {
    type V = InitInputView;

    open spec fn view(&self) -> InitInputView {
        match self {
            InitInput::Begin => InitInputView::Begin,
            InitInput::Connected => InitInputView::Connected,
            InitInput::TableCreated => InitInputView::TableCreated,
            InitInput::UsersCounted(n) => InitInputView::UsersCounted(*n),
            InitInput::DefaultUserMade(r) => InitInputView::DefaultUserMade(
                match r {
                    Ok(u) => Ok((u.username@, u.password_hash@)),
                    Err(e) => Err(e@),
                },
            ),
            InitInput::UserCreated(id) => InitInputView::UserCreated(*id),
            InitInput::ProvidersLoaded(rows) => InitInputView::ProvidersLoaded(rows@),
            InitInput::Installed(ok) => InitInputView::Installed(*ok),
            InitInput::Failed(e) => InitInputView::Failed(e@),
        }
    }
}

impl View for InitAction {
    type V = InitActionView;

    open spec fn view(&self) -> InitActionView {
        match self {
            InitAction::Connect { url } => InitActionView::Connect { url: url@ },
            InitAction::CreateTable(t) => InitActionView::CreateTable(*t),
            InitAction::CountUsers => InitActionView::CountUsers,
            InitAction::MakeDefaultUser => InitActionView::MakeDefaultUser,
            InitAction::InsertUser(u) => InitActionView::InsertUser {
                username: u.username@,
                password_hash: u.password_hash@,
            },
            InitAction::LoadProviders => InitActionView::LoadProviders,
            InitAction::Install(v) => InitActionView::Install(configs_map(v@)),
            InitAction::Finish(r) => InitActionView::Finish(
                match r {
                    Ok(_) => Ok(()),
                    Err(e) => Err(e@),
                },
            ),
        }
    }
}

/// Whether `input` is a report start-up can take at `stage`.
pub open spec fn init_accepts(stage: InitStage, input: InitInputView) -> bool {
    match stage {
        InitStage::Start => input is Begin,
        InitStage::Finished => false,
        _ => match input {
            InitInputView::Failed(_) => true,
            InitInputView::Begin => false,
            InitInputView::Connected => stage is Connecting,
            InitInputView::TableCreated => stage is CreatingTables && stage->done < TABLE_COUNT,
            InitInputView::UsersCounted(_) => stage is CountingUsers,
            InitInputView::DefaultUserMade(_) => stage is MakingUser,
            InitInputView::UserCreated(_) => stage is CreatingUser,
            InitInputView::ProvidersLoaded(_) => stage is LoadingProviders,
            InitInputView::Installed(_) => stage is Installing,
        },
    }
}

/// One step of start-up. `url` is the database address.
#[verifier::opaque]
pub open spec fn init_next(stage: InitStage, url: Seq<char>, input: InitInputView) -> (InitStage, InitActionView) {
    match input {
        InitInputView::Failed(e) => (InitStage::Finished, InitActionView::Finish(Err(e))),
        InitInputView::Begin => (InitStage::Connecting, InitActionView::Connect { url }),
        InitInputView::Connected => (InitStage::CreatingTables { done: 0 }, InitActionView::CreateTable(table_order()[0])),
        InitInputView::TableCreated => {
            let done = stage->done + 1;
            if done < TABLE_COUNT {
                (InitStage::CreatingTables { done: done as usize }, InitActionView::CreateTable(table_order()[done as int]))
            } else {
                (InitStage::CountingUsers, InitActionView::CountUsers)
            }
        },
        InitInputView::UsersCounted(n) => if n != 0 {
            (InitStage::LoadingProviders, InitActionView::LoadProviders)
        } else {
            (InitStage::MakingUser, InitActionView::MakeDefaultUser)
        },
        InitInputView::DefaultUserMade(made) => match made {
            Ok((username, password_hash)) => (InitStage::CreatingUser, InitActionView::InsertUser { username, password_hash }),
            Err(e) => (InitStage::Finished, InitActionView::Finish(Err(e))),
        },
        InitInputView::UserCreated(_) => (InitStage::LoadingProviders, InitActionView::LoadProviders),
        InitInputView::ProvidersLoaded(rows) => (InitStage::Installing, InitActionView::Install(enter_providers(Map::empty(), rows))),
        InitInputView::Installed(ok) => (
            InitStage::Finished,
            InitActionView::Finish(if ok { Ok(()) } else { Err(already_installed_text()) }),
        ),
    }
}

/// Start-up of the store, driven by the caller one action at a time.
pub struct InitFlow {
    url: String,
    stage: InitStage,
}

impl InitFlow {
    /// The database address.
    pub closed spec fn url(&self) -> Seq<char> {
        self.url@
    }

    /// Where start-up stands.
    pub closed spec fn stage(&self) -> InitStage {
        self.stage
    }

    /// Start-up with the given settings, not yet begun.
    pub fn new(config: &ConfigData) -> (f: InitFlow)
        ensures
            f.url() == "sqlite://"@ + config.database_url@ + "?mode=rwc"@,
            f.stage() == InitStage::Start,
    {
        InitFlow { url: config.sqlite_url(), stage: InitStage::Start }
    }

    /// Whether start-up is over.
    pub fn is_finished(&self) -> (r: bool)
        ensures
            r == (self.stage() is Finished),
    {
        match self.stage {
            InitStage::Finished => true,
            _ => false,
        }
    }

    /// Takes the report on the previous action and returns the next action.
    pub fn step(&mut self, input: InitInput) -> (a: InitAction)
        requires
            init_accepts(old(self).stage(), input@),
        ensures
            final(self).url() == old(self).url(),
            (final(self).stage(), a@) == init_next(old(self).stage(), old(self).url(), input@),
    {
        proof {
            reveal(init_next);
        }
        let stage = self.stage;
        match input {
            InitInput::Failed(e) => {
                self.stage = InitStage::Finished;
                InitAction::Finish(Err(e))
            },
            InitInput::Begin => {
                self.stage = InitStage::Connecting;
                InitAction::Connect { url: self.url.clone() }
            },
            InitInput::Connected => {
                self.stage = InitStage::CreatingTables { done: 0 };
                InitAction::CreateTable(table_at(0))
            },
            InitInput::TableCreated => {
                let done = match stage {
                    InitStage::CreatingTables { done } => done + 1,
                    _ => vstd::pervasive::unreached(),
                };
                let a = if done < TABLE_COUNT {
                    self.stage = InitStage::CreatingTables { done };
                    InitAction::CreateTable(table_at(done))
                } else {
                    self.stage = InitStage::CountingUsers;
                    InitAction::CountUsers
                };
                a
            },
            InitInput::UsersCounted(n) => {
                if has_any_user(n) {
                    self.stage = InitStage::LoadingProviders;
                    InitAction::LoadProviders
                } else {
                    self.stage = InitStage::MakingUser;
                    InitAction::MakeDefaultUser
                }
            },
            InitInput::DefaultUserMade(made) => match made {
                Ok(u) => {
                    self.stage = InitStage::CreatingUser;
                    InitAction::InsertUser(u)
                },
                Err(e) => {
                    self.stage = InitStage::Finished;
                    InitAction::Finish(Err(e))
                },
            },
            InitInput::UserCreated(_) => {
                self.stage = InitStage::LoadingProviders;
                InitAction::LoadProviders
            },
            InitInput::ProvidersLoaded(rows) => {
                self.stage = InitStage::Installing;
                InitAction::Install(active_llm_providers(&rows))
            },
            InitInput::Installed(ok) => {
                self.stage = InitStage::Finished;
                let a = if ok {
                    InitAction::Finish(Ok(()))
                } else {
                    InitAction::Finish(Err("providers 已初始化".to_owned()))
                };
                a
            },
        }
    }
}

/// The tables that `acts` create, in order.
pub open spec fn created(acts: Seq<InitActionView>) -> Seq<Table>
    decreases acts.len(),
{
    if acts.len() == 0 {
        Seq::empty()
    } else {
        let first = if acts[0] is CreateTable {
            seq![acts[0]->CreateTable_0]
        } else {
            Seq::empty()
        };
        first + created(acts.drop_first())
    }
}

/// The actions that read or write users or providers.
pub open spec fn uses_tables(a: InitActionView) -> bool {
    a is CountUsers || a is InsertUser || a is LoadProviders || a is Install
}

/// A run of start-up from `start`: `stages[i]` and `inputs[i]` lead to
/// `stages[i + 1]` and `acts[i]`.
pub open spec fn is_init_trace(
    start: InitStage,
    url: Seq<char>,
    inputs: Seq<InitInputView>,
    stages: Seq<InitStage>,
    acts: Seq<InitActionView>,
) -> bool {
    &&& stages.len() == inputs.len() + 1
    &&& acts.len() == inputs.len()
    &&& stages[0] == start
    &&& forall|i: int|
        #![trigger inputs[i]]
        0 <= i < inputs.len() ==> init_accepts(stages[i], inputs[i]) && init_next(stages[i], url, inputs[i]) == (
            stages[i + 1],
            acts[i],
        )
}

/// Which tables exist at each stage, given the tables created so far.
spec fn tables_inv(stage: InitStage, c: Seq<Table>) -> bool {
    match stage {
        InitStage::Start | InitStage::Connecting => c == Seq::<Table>::empty(),
        InitStage::CreatingTables { done } => done < TABLE_COUNT && c == table_order().take(done + 1),
        InitStage::Finished => c.len() <= TABLE_COUNT && c == table_order().take(c.len() as int),
        _ => c == table_order(),
    }
}

proof fn lemma_created_push(acts: Seq<InitActionView>, a: InitActionView)
    ensures
        created(acts.push(a)) == created(acts) + created(seq![a]),
    decreases acts.len(),
{
    if acts.len() == 0 {
        assert(acts.push(a) =~= seq![a]);
        assert(created(acts.push(a)) =~= created(acts) + created(seq![a]));
    } else {
        lemma_created_push(acts.drop_first(), a);
        assert(acts.push(a).drop_first() =~= acts.drop_first().push(a));
        assert(created(acts.push(a)) =~= created(acts) + created(seq![a]));
    }
}

proof fn lemma_init_step_tables(stage: InitStage, url: Seq<char>, input: InitInputView, next: InitStage, a: InitActionView, c: Seq<Table>)
    requires
        tables_inv(stage, c),
        init_accepts(stage, input),
        init_next(stage, url, input) == (next, a),
    ensures
        tables_inv(next, c + created(seq![a])),
        uses_tables(a) ==> c == table_order(),
{
    reveal(init_next);
    let nc = c + created(seq![a]);
    assert(seq![a].drop_first() =~= Seq::<InitActionView>::empty());
    assert(created(Seq::<InitActionView>::empty()) == Seq::<Table>::empty());
    assert(created(seq![a]) == (if a is CreateTable { seq![a->CreateTable_0] } else { Seq::<Table>::empty() }) + created(seq![a].drop_first()));
    if a is CreateTable {
        assert(created(seq![a]) =~= seq![a->CreateTable_0]);
    } else {
        assert(created(seq![a]) =~= Seq::<Table>::empty());
        assert(nc =~= c);
    }
    match stage {
        InitStage::Connecting => {
            if input is Connected {
                assert(nc =~= table_order().take(1));
            }
        },
        InitStage::CreatingTables { done } => {
            if input is TableCreated {
                if done + 1 < TABLE_COUNT {
                    assert(nc =~= table_order().take(done + 2));
                } else {
                    assert(c =~= table_order());
                }
            } else {
                assert(nc.len() == done + 1);
            }
        },
        _ => {
            if next is Finished {
                assert(nc.len() <= TABLE_COUNT);
            }
        },
    }
    if next is Finished {
        assert(nc =~= table_order().take(nc.len() as int));
    }
}

proof fn lemma_tables_upto(url: Seq<char>, inputs: Seq<InitInputView>, stages: Seq<InitStage>, acts: Seq<InitActionView>, k: int)
    requires
        is_init_trace(InitStage::Start, url, inputs, stages, acts),
        0 <= k <= inputs.len(),
    ensures
        tables_inv(stages[k], created(acts.take(k))),
        forall|i: int| #![trigger acts[i]] 0 <= i < k && uses_tables(acts[i]) ==> created(acts.take(i)) == table_order(),
    decreases k,
{
    if k == 0 {
        assert(acts.take(0) =~= Seq::<InitActionView>::empty());
    } else {
        let j = k - 1;
        lemma_tables_upto(url, inputs, stages, acts, j);
        assert(init_accepts(stages[j], inputs[j]));
        lemma_init_step_tables(stages[j], url, inputs[j], stages[k], acts[j], created(acts.take(j)));
        lemma_created_push(acts.take(j), acts[j]);
        assert(acts.take(k) =~= acts.take(j).push(acts[j]));
    }
}

/// In every run of start-up, whatever the store reports: the tables are created in `table_order` (so each after the table
/// it refers to), and users and providers are only counted, stored or loaded
/// once every table has been created.
pub proof fn lemma_tables_first(url: Seq<char>, inputs: Seq<InitInputView>, stages: Seq<InitStage>, acts: Seq<InitActionView>)
    requires
        is_init_trace(InitStage::Start, url, inputs, stages, acts),
    ensures
        created(acts).len() <= TABLE_COUNT,
        created(acts) == table_order().take(created(acts).len() as int),
        forall|i: int| #![trigger acts[i]] 0 <= i < acts.len() && uses_tables(acts[i]) ==> created(acts.take(i)) == table_order(),
{
    let n = inputs.len() as int;
    lemma_tables_upto(url, inputs, stages, acts, n);
    assert(acts.take(n) =~= acts);
    let c = created(acts);
    assert(tables_inv(stages[n], c));
    assert(c.len() <= TABLE_COUNT && c == table_order().take(c.len() as int)) by {
        match stages[n] {
            InitStage::Start | InitStage::Connecting => {
                assert(c =~= table_order().take(0));
            },
            InitStage::CreatingTables { done } => {},
            InitStage::Finished => {},
            _ => {
                assert(table_order().take(5) =~= table_order());
            },
        }
    }
}


/// Whether `inputs` report a user in the store: users were counted and there
/// were some, or the default user was stored.
pub open spec fn user_ensured(inputs: Seq<InitInputView>) -> bool {
    exists|j: int|
        0 <= j < inputs.len() && ((inputs[j] is UsersCounted && inputs[j]->UsersCounted_0 != 0) || inputs[j] is UserCreated)
}

/// What holds of the user and the chat models at each stage.
spec fn install_inv(stage: InitStage, ins: Seq<InitInputView>, acts: Seq<InitActionView>) -> bool {
    match stage {
        InitStage::LoadingProviders => user_ensured(ins),
        InitStage::Installing => user_ensured(ins) && acts.len() >= 1 && acts.last() is Install,
        _ => true,
    }
}

proof fn lemma_init_step_install(
    stage: InitStage,
    url: Seq<char>,
    input: InitInputView,
    next: InitStage,
    a: InitActionView,
    ins: Seq<InitInputView>,
    acts: Seq<InitActionView>,
)
    requires
        install_inv(stage, ins, acts),
        init_accepts(stage, input),
        init_next(stage, url, input) == (next, a),
    ensures
        install_inv(next, ins.push(input), acts.push(a)),
        input == InitInputView::Installed(false) ==> {
            &&& a == InitActionView::Finish(Err(already_installed_text()))
            &&& next == InitStage::Finished
            &&& user_ensured(ins)
            &&& acts.len() >= 1 && acts.last() is Install
        },
{
    reveal(init_next);
    let ins2 = ins.push(input);
    assert(ins2[ins.len() as int] == input);
    if user_ensured(ins) {
        let j = choose|j: int|
            0 <= j < ins.len() && ((ins[j] is UsersCounted && ins[j]->UsersCounted_0 != 0) || ins[j] is UserCreated);
        assert(ins2[j] == ins[j]);
    }
    assert(acts.push(a).last() == a);
}

proof fn lemma_install_upto(url: Seq<char>, inputs: Seq<InitInputView>, stages: Seq<InitStage>, acts: Seq<InitActionView>, k: int)
    requires
        is_init_trace(InitStage::Start, url, inputs, stages, acts),
        0 <= k <= inputs.len(),
    ensures
        install_inv(stages[k], inputs.take(k), acts.take(k)),
    decreases k,
{
    if k > 0 {
        let j = k - 1;
        lemma_install_upto(url, inputs, stages, acts, j);
        assert(init_accepts(stages[j], inputs[j]));
        lemma_init_step_install(stages[j], url, inputs[j], stages[k], acts[j], inputs.take(j), acts.take(j));
        assert(inputs.take(k) =~= inputs.take(j).push(inputs[j]));
        assert(acts.take(k) =~= acts.take(j).push(acts[j]));
    }
}

/// In every run of start-up: when the chat models
/// turn out to be installed already, start-up ends with the error
/// `providers 已初始化`, and only after every table was created, a user was
/// found or the default user stored, and the chat models were loaded and
/// offered for installing.
pub proof fn lemma_installed_refused(
    url: Seq<char>,
    inputs: Seq<InitInputView>,
    stages: Seq<InitStage>,
    acts: Seq<InitActionView>,
    i: int,
)
    requires
        is_init_trace(InitStage::Start, url, inputs, stages, acts),
        0 <= i < inputs.len(),
        inputs[i] == InitInputView::Installed(false),
    ensures
        acts[i] == InitActionView::Finish(Err(already_installed_text())),
        stages[i + 1] == InitStage::Finished,
        created(acts.take(i)) == table_order(),
        user_ensured(inputs.take(i)),
        i >= 1 && acts[i - 1] is Install,
{
    lemma_install_upto(url, inputs, stages, acts, i);
    lemma_tables_upto(url, inputs, stages, acts, i);
    assert(init_accepts(stages[i], inputs[i]));
    lemma_init_step_install(stages[i], url, inputs[i], stages[i + 1], acts[i], inputs.take(i), acts.take(i));
    assert(stages[i] is Installing);
    assert(acts.take(i).last() == acts[i - 1]);
}

/// In every run of start-up, the default user is made only when the store
/// holds no user: counting some users leads straight to loading the
/// providers, counting none to making the default user; the default user is
/// made only right after counting none, and stored only right after it was
/// made.
pub proof fn lemma_default_user_only_when_none(
    url: Seq<char>,
    inputs: Seq<InitInputView>,
    stages: Seq<InitStage>,
    acts: Seq<InitActionView>,
    i: int,
)
    requires
        is_init_trace(InitStage::Start, url, inputs, stages, acts),
        0 <= i < inputs.len(),
    ensures
        inputs[i] matches InitInputView::UsersCounted(n) ==> (n != 0 <==> acts[i] == InitActionView::LoadProviders),
        inputs[i] matches InitInputView::UsersCounted(n) ==> (n == 0 <==> acts[i] == InitActionView::MakeDefaultUser),
        acts[i] is MakeDefaultUser ==> inputs[i] == InitInputView::UsersCounted(0),
        acts[i] is InsertUser ==> {
            &&& i >= 1
            &&& inputs[i - 1] == InitInputView::UsersCounted(0)
            &&& acts[i - 1] == InitActionView::MakeDefaultUser
            &&& inputs[i] matches InitInputView::DefaultUserMade(Ok(u))
            &&& acts[i] == InitActionView::InsertUser { username: u.0, password_hash: u.1 }
        },
{
    reveal(init_next);
    assert(init_accepts(stages[i], inputs[i]));
    assert(init_next(stages[i], url, inputs[i]) == (stages[i + 1], acts[i]));
    if acts[i] is InsertUser {
        assert(stages[i] is MakingUser);
        assert(i != 0);
        let j = i - 1;
        assert(init_accepts(stages[j], inputs[j]));
        assert(init_next(stages[j], url, inputs[j]) == (stages[j + 1], acts[j]));
    }
}

} // verus!
