//! How the application is put together around the backup: in which order its parts are built, in
//! which order its plugins are registered, and what is said of a part that is gone.
use vstd::prelude::*;

verus! {

/// The plugins in the order in which they are registered.
pub fn make_plugins<P>(
    folder: P,
    database: P,
    user: P,
    document: P,
    date: P,
    search: P,
    ai: P,
    file_storage: P,
    backup: P,
) -> (plugins: Vec<P>)
    ensures
        plugins@ == seq![user, folder, database, document, date, search, ai, file_storage, backup],
{
    let mut plugins: Vec<P> = Vec::new();
    plugins.push(user);
    plugins.push(folder);
    plugins.push(database);
    plugins.push(document);
    plugins.push(date);
    plugins.push(search);
    plugins.push(ai);
    plugins.push(file_storage);
    plugins.push(backup);
    assert(plugins@ =~= seq![
        user,
        folder,
        database,
        document,
        date,
        search,
        ai,
        file_storage,
        backup,
    ]);
    plugins
}

/// The core that backups are run on. There is none before it was registered, and what was
/// registered may be gone by now.
pub fn registered_core<C>(registered: Option<Option<C>>) -> (core: Result<C, String>)
    ensures
        match registered {
            Some(Some(found)) => core == Ok::<C, String>(found),
            Some(None) => core is Err && core->Err_0@ == "AppFlowyCore reference no longer valid"@,
            None => core is Err && core->Err_0@ == "AppFlowyCore not initialized for backup"@,
        },
{
    match registered {
        Some(Some(found)) => Ok(found),
        Some(None) => Err("AppFlowyCore reference no longer valid".to_owned()),
        None => Err("AppFlowyCore not initialized for backup".to_owned()),
    }
}

/// The signed-in user, if the part that knows them is still there.
pub fn upgrade_user<U>(user: Option<U>) -> (upgraded: Result<U, String>)
    ensures
        match user {
            Some(found) => upgraded == Ok::<U, String>(found),
            None => upgraded is Err && upgraded->Err_0@
                == "Unexpected error: UserSession is None"@,
        },
{
    match user {
        Some(found) => Ok(found),
        None => Err("Unexpected error: UserSession is None".to_owned()),
    }
}

/// A part of the application, or something that has to be done while it is put together.
#[derive(Debug, Clone, Copy, PartialEq, Eq, Structural)]
pub enum Part {
    /// The storage directory exists.
    StoragePath,
    /// The key-value preferences.
    Preferences,
    /// The vector database for embeddings.
    VectorStore,
    /// The task dispatcher, with its runner at work.
    TaskDispatcher,
    /// The part that knows the signed-in user.
    AuthenticateUser,
    /// The writer of the instant index.
    IndexWriter,
    ServerProvider,
    Storage,
    CollabBuilder,
    Folder,
    FolderQuery,
    Ai,
    Database,
    Document,
    User,
    Search,
    /// The operation handlers of the folder.
    FolderHandlers,
    /// The user manager is initialized, with the callbacks of the application.
    UserCallbacks,
    /// The dispatcher, with all plugins.
    EventDispatcher,
}

/// The parts in the order in which they are built. The vector database and the index writer are
/// built only where they have a place.
pub open spec fn startup_order(vector_store: bool, desktop: bool) -> Seq<Part> {
    seq![Part::StoragePath, Part::Preferences] + (if vector_store {
        seq![Part::VectorStore]
    } else {
        Seq::empty()
    }) + seq![Part::TaskDispatcher, Part::AuthenticateUser] + (if desktop {
        seq![Part::IndexWriter]
    } else {
        Seq::empty()
    }) + seq![
        Part::ServerProvider,
        Part::Storage,
        Part::CollabBuilder,
        Part::Folder,
        Part::FolderQuery,
        Part::Ai,
        Part::Database,
        Part::Document,
        Part::User,
        Part::Search,
        Part::FolderHandlers,
        Part::UserCallbacks,
        Part::EventDispatcher,
    ]
}

/// The parts in the order in which they are built.
pub fn startup_plan(vector_store: bool, desktop: bool) -> (plan: Vec<Part>)
    ensures
        plan@ == startup_order(vector_store, desktop),
{
    let mut plan: Vec<Part> = Vec::new();
    plan.push(Part::StoragePath);
    plan.push(Part::Preferences);
    if vector_store {
        plan.push(Part::VectorStore);
    }
    plan.push(Part::TaskDispatcher);
    plan.push(Part::AuthenticateUser);
    if desktop {
        plan.push(Part::IndexWriter);
    }
    plan.push(Part::ServerProvider);
    plan.push(Part::Storage);
    plan.push(Part::CollabBuilder);
    plan.push(Part::Folder);
    plan.push(Part::FolderQuery);
    plan.push(Part::Ai);
    plan.push(Part::Database);
    plan.push(Part::Document);
    plan.push(Part::User);
    plan.push(Part::Search);
    plan.push(Part::FolderHandlers);
    plan.push(Part::UserCallbacks);
    plan.push(Part::EventDispatcher);
    assert(plan@ =~= startup_order(vector_store, desktop));
    plan
}

/// Whether the application goes on without a part that could not be built: a user who could not
/// be initialized is logged, nothing else is passed over.
pub fn only_logged(part: Part) -> (logged: bool)
    ensures
        logged == (part == Part::UserCallbacks),
{
    match part {
        Part::UserCallbacks => true,
        _ => false,
    }
}

/// Building `part` takes `other`; the index writer is taken only where there is one.
pub open spec fn needs(part: Part, other: Part, desktop: bool) -> bool {
    match part {
        Part::StoragePath => false,
        Part::Preferences => other == Part::StoragePath,
        Part::VectorStore => other == Part::StoragePath,
        Part::TaskDispatcher => false,
        Part::AuthenticateUser => other == Part::Preferences,
        Part::IndexWriter => false,
        Part::ServerProvider => other == Part::Preferences || other == Part::AuthenticateUser || (
        desktop && other == Part::IndexWriter),
        Part::Storage => other == Part::AuthenticateUser || other == Part::ServerProvider,
        Part::CollabBuilder => other == Part::ServerProvider || other == Part::AuthenticateUser || (
        desktop && other == Part::IndexWriter),
        Part::Folder => other == Part::AuthenticateUser || other == Part::CollabBuilder || other
            == Part::ServerProvider || other == Part::Preferences,
        Part::FolderQuery => other == Part::Folder || other == Part::AuthenticateUser,
        Part::Ai => other == Part::AuthenticateUser || other == Part::ServerProvider || other
            == Part::Preferences || other == Part::Storage || other == Part::FolderQuery,
        Part::Database => other == Part::AuthenticateUser || other == Part::TaskDispatcher || other
            == Part::CollabBuilder || other == Part::ServerProvider || other == Part::Ai,
        Part::Document => other == Part::AuthenticateUser || other == Part::CollabBuilder || other
            == Part::ServerProvider || other == Part::Storage,
        Part::User => other == Part::AuthenticateUser || other == Part::CollabBuilder || other
            == Part::ServerProvider || other == Part::Preferences || other == Part::Database
            || other == Part::Folder,
        Part::Search => other == Part::ServerProvider || other == Part::Folder,
        Part::FolderHandlers => other == Part::Folder || other == Part::Document || other
            == Part::Database || other == Part::Ai,
        Part::UserCallbacks => other == Part::User || other == Part::CollabBuilder || other
            == Part::Folder || other == Part::Database || other == Part::Document || other
            == Part::ServerProvider || other == Part::Storage || other == Part::Ai || other
            == Part::Search || other == Part::AuthenticateUser || (desktop && other
            == Part::IndexWriter),
        Part::EventDispatcher => other == Part::Folder || other == Part::Database || other
            == Part::User || other == Part::Document || other == Part::Search || other == Part::Ai
            || other == Part::Storage,
    }
}

/// Everything that a part needs is built before it, and no part is built twice.
pub proof fn law_parts_are_built_after_what_they_need(vector_store: bool, desktop: bool)
    ensures
        startup_order(vector_store, desktop).no_duplicates(),
        forall|i: int, other: Part|
            0 <= i < startup_order(vector_store, desktop).len() && #[trigger] needs(
                startup_order(vector_store, desktop)[i],
                other,
                desktop,
            ) ==> startup_order(vector_store, desktop).take(i).contains(other),
{
    let order = startup_order(vector_store, desktop);
    let v: int = if vector_store { 1 } else { 0 };
    let d: int = if desktop { 1 } else { 0 };
    assert(order.len() == 17 + v + d);
    assert(order[0] == Part::StoragePath);
    assert(order[1] == Part::Preferences);
    assert(order[2 + v] == Part::TaskDispatcher);
    assert(order[3 + v] == Part::AuthenticateUser);
    assert(desktop ==> order[4 + v] == Part::IndexWriter);
    assert(order[4 + v + d] == Part::ServerProvider);
    assert(order[5 + v + d] == Part::Storage);
    assert(order[6 + v + d] == Part::CollabBuilder);
    assert(order[7 + v + d] == Part::Folder);
    assert(order[8 + v + d] == Part::FolderQuery);
    assert(order[9 + v + d] == Part::Ai);
    assert(order[10 + v + d] == Part::Database);
    assert(order[11 + v + d] == Part::Document);
    assert(order[12 + v + d] == Part::User);
    assert(order[13 + v + d] == Part::Search);
    assert(order[14 + v + d] == Part::FolderHandlers);
    assert(order[15 + v + d] == Part::UserCallbacks);
    assert(order[16 + v + d] == Part::EventDispatcher);
    assert forall|i: int, other: Part|
        0 <= i < order.len() && #[trigger] needs(order[i], other, desktop) implies order.take(
        i,
    ).contains(other) by {
        let j = built_at(other, v, d);
        assert(order[j] == other);
        assert(j < i);
        assert(order.take(i)[j] == other);
    }
}

/// Where a part that others need stands in the order.
spec fn built_at(part: Part, v: int, d: int) -> int {
    match part {
        Part::StoragePath => 0,
        Part::Preferences => 1,
        Part::TaskDispatcher => 2 + v,
        Part::AuthenticateUser => 3 + v,
        Part::IndexWriter => 4 + v,
        Part::ServerProvider => 4 + v + d,
        Part::Storage => 5 + v + d,
        Part::CollabBuilder => 6 + v + d,
        Part::Folder => 7 + v + d,
        Part::FolderQuery => 8 + v + d,
        Part::Ai => 9 + v + d,
        Part::Database => 10 + v + d,
        Part::Document => 11 + v + d,
        Part::User => 12 + v + d,
        Part::Search => 13 + v + d,
        _ => 14 + v + d,
    }
}

/// Every part is built, the vector database and the index writer exactly where they have a place;
/// the first is the storage directory, and the last is the dispatcher with all plugins.
pub proof fn law_every_part_is_built(vector_store: bool, desktop: bool)
    ensures
        forall|part: Part| #[trigger]
            startup_order(vector_store, desktop).contains(part) <==> (part == Part::VectorStore
                ==> vector_store) && (part == Part::IndexWriter ==> desktop),
        startup_order(vector_store, desktop)[0] == Part::StoragePath,
        startup_order(vector_store, desktop).last() == Part::EventDispatcher,
{
    let order = startup_order(vector_store, desktop);
    let v: int = if vector_store { 1 } else { 0 };
    let d: int = if desktop { 1 } else { 0 };
    assert(order.len() == 17 + v + d);
    assert forall|part: Part| #[trigger]
        order.contains(part) <==> (part == Part::VectorStore ==> vector_store) && (part
        == Part::IndexWriter ==> desktop) by {
        if part == Part::VectorStore {
            if vector_store {
                assert(order[2] == part);
            }
        } else if part == Part::IndexWriter {
            if desktop {
                assert(order[4 + v] == part);
            }
        } else {
            let i = match part {
                Part::FolderHandlers => 14 + v + d,
                Part::UserCallbacks => 15 + v + d,
                Part::EventDispatcher => 16 + v + d,
                _ => built_at(part, v, d),
            };
            assert(order[i] == part);
        }
    }
}

/// The turn of a part: parts with a lower one are built before parts with a higher one.
pub open spec fn turn(part: Part) -> int {
    match part {
        Part::StoragePath => 0,
        Part::Preferences => 1,
        Part::VectorStore => 2,
        Part::TaskDispatcher => 3,
        Part::AuthenticateUser => 4,
        Part::IndexWriter => 5,
        Part::ServerProvider => 6,
        Part::Storage => 7,
        Part::CollabBuilder => 8,
        Part::Folder => 9,
        Part::FolderQuery => 10,
        Part::Ai => 11,
        Part::Database => 12,
        Part::Document => 13,
        Part::User => 14,
        Part::Search => 15,
        Part::FolderHandlers => 16,
        Part::UserCallbacks => 17,
        Part::EventDispatcher => 18,
    }
}

/// Whichever parts there are, they are built in the order of their turns.
pub proof fn law_parts_are_built_in_turn(vector_store: bool, desktop: bool)
    ensures
        ({
            let order = startup_order(vector_store, desktop);
            forall|i: int, j: int|
                #![trigger order[i], order[j]]
                0 <= i < j < order.len() ==> turn(order[i]) < turn(order[j])
        }),
{
    let order = startup_order(vector_store, desktop);
    let v: int = if vector_store { 1 } else { 0 };
    let d: int = if desktop { 1 } else { 0 };
    assert forall|i: int| 0 <= i < order.len() implies #[trigger] turn(order[i]) == i + (if i
        >= 2 + v {
        1 - v
    } else {
        0
    }) + (if i >= 4 + v + d {
        1 - d
    } else {
        0
    }) by {}
}

} // verus!
