//! What a configuration that is drawn up from a workspace holds.

use vstd::prelude::*;

use crate::config::ConfigCommandView;
use crate::config::ConfigProject;
use crate::config::OptionConfig;
use crate::config::ProjectSource;
use crate::config::command_views;
use crate::config::declared_deps;
use crate::config::drawn_up;
use crate::config::field_names;
use crate::config::known_once;
use crate::config::lemma_known_once;
use crate::config::listed_but;
use crate::config::listed_names;
use crate::json::JsonView;
use crate::json::field_of;
use crate::json::first_field;
use crate::text;

verus! {

/// The value of a field is that of a field of the object that bears its name, and there is none
/// where no field does, nor in what is no object.
pub proof fn lemma_field_of(j: JsonView, key: Seq<char>)
    ensures
        j matches JsonView::Object(fields) ==> {
            &&& field_of(j, key) is Some <==> exists|i: int|
                0 <= i < fields.len() && (#[trigger] fields[i]).0 == key
            &&& forall|i: int|
                0 <= i < fields.len() && (#[trigger] fields[i]).0 == key && (forall|k: int|
                    0 <= k < i ==> (#[trigger] fields[k]).0 != key) ==> field_of(j, key) == Some(
                    fields[i].1,
                )
        },
        !(j is Object) ==> field_of(j, key) is None,
{
    if j is Object {
        let fields = j->Object_0;
        lemma_first_field_none(fields, key);
        assert forall|i: int|
            0 <= i < fields.len() && (#[trigger] fields[i]).0 == key && (forall|k: int|
                0 <= k < i ==> (#[trigger] fields[k]).0 != key) implies field_of(j, key) == Some(
            fields[i].1,
        ) by {
            lemma_first_field_at(fields, key, i);
        }
    }
}

proof fn lemma_first_field_at(fields: Seq<(Seq<char>, JsonView)>, key: Seq<char>, i: int)
    requires
        0 <= i < fields.len(),
        fields[i].0 == key,
        forall|k: int| 0 <= k < i ==> (#[trigger] fields[k]).0 != key,
    ensures
        first_field(fields, key) == Some(fields[i].1),
    decreases i,
{
    if i > 0 {
        assert(fields[0].0 != key);
        let rest = fields.drop_first();
        assert forall|k: int| 0 <= k < i - 1 implies (#[trigger] rest[k]).0 != key by {
            assert(rest[k] == fields[k + 1]);
        }
        lemma_first_field_at(rest, key, i - 1);
    }
}

proof fn lemma_first_field_none(fields: Seq<(Seq<char>, JsonView)>, key: Seq<char>)
    ensures
        first_field(fields, key) is Some <==> exists|i: int|
            0 <= i < fields.len() && (#[trigger] fields[i]).0 == key,
    decreases fields.len(),
{
    if fields.len() > 0 {
        let rest = fields.drop_first();
        lemma_first_field_none(rest, key);
        if exists|i: int| 0 <= i < rest.len() && (#[trigger] rest[i]).0 == key {
            let i = choose|i: int| 0 <= i < rest.len() && (#[trigger] rest[i]).0 == key;
            assert(fields[i + 1].0 == key);
        }
        if exists|i: int| 0 <= i < fields.len() && (#[trigger] fields[i]).0 == key {
            let i = choose|i: int| 0 <= i < fields.len() && (#[trigger] fields[i]).0 == key;
            if i > 0 {
                assert(rest[i - 1].0 == key);
            }
        }
    }
}

/// Whether an object in the field `key` of a document has a field `name`.
pub open spec fn names(j: JsonView, key: Seq<char>, name: Seq<char>) -> bool {
    &&& field_of(j, key) matches Some(JsonView::Object(fields))
    &&& exists|i: int| 0 <= i < fields.len() && (#[trigger] fields[i]).0 == name
}

/// Whether the package manager lists a project of a given name.
pub open spec fn lists(listing: JsonView, name: Seq<char>) -> bool {
    &&& listing matches JsonView::Array(items)
    &&& exists|i: int|
        0 <= i < items.len() && field_of(#[trigger] items[i], "name"@) == Some(JsonView::Str(name))
}

proof fn lemma_field_names(j: JsonView, key: Seq<char>, name: Seq<char>)
    ensures
        field_names(field_of(j, key)).contains(name) <==> names(j, key, name),
{
    let all = field_names(field_of(j, key));
    let fields = crate::json::fields_of(field_of(j, key));
    assert(all.len() == fields.len());
    if all.contains(name) {
        let i = choose|i: int| 0 <= i < all.len() && all[i] == name;
        assert(fields[i].0 == name);
    }
    if names(j, key, name) {
        let i = choose|i: int| 0 <= i < fields.len() && (#[trigger] fields[i]).0 == name;
        assert(all[i] == name);
    }
}

proof fn lemma_concat_contains(a: Seq<Seq<char>>, b: Seq<Seq<char>>, x: Seq<char>)
    ensures
        (a + b).contains(x) <==> a.contains(x) || b.contains(x),
{
    let all = a + b;
    if a.contains(x) {
        let i = choose|i: int| 0 <= i < a.len() && a[i] == x;
        assert(all[i] == x);
    }
    if b.contains(x) {
        let i = choose|i: int| 0 <= i < b.len() && b[i] == x;
        assert(all[a.len() + i] == x);
    }
    if all.contains(x) {
        let i = choose|i: int| 0 <= i < all.len() && all[i] == x;
        if i < a.len() {
            assert(a[i] == x);
        } else {
            assert(b[i - a.len()] == x);
        }
    }
}

/// A project that is drawn up depends on exactly those projects of the workspace that its
/// `package.json` names among its peer dependencies, its dependencies for development or its
/// other dependencies. Where there is none its dependencies are absent.
pub proof fn lemma_drawn_up_dependencies(
    p: ConfigProject,
    s: ProjectSource,
    listing: JsonView,
    workspace: Seq<char>,
    name: Seq<char>,
)
    requires
        drawn_up(p, s, listing, workspace),
        lists(listing, name),
    ensures
        (p.depends_on matches OptionConfig::List(v) && exists|i: int|
            0 <= i < v@.len() && (#[trigger] v@[i])@ == name) <==> names(
            s.manifest@,
            "peerDependencies"@,
            name,
        ) || names(s.manifest@, "devDependencies"@, name) || names(
            s.manifest@,
            "dependencies"@,
            name,
        ),
{
    let known = listed_names(listing);
    let items = listing->Array_0;
    let i = choose|i: int|
        0 <= i < items.len() && field_of(#[trigger] items[i], "name"@) == Some(
            JsonView::Str(name),
        );
    assert(known[i] == name);
    let declared = declared_deps(s.manifest@);
    lemma_known_once(declared, known);
    lemma_declared(s.manifest@, name);
    let deps = known_once(declared, known);
    if names(s.manifest@, "peerDependencies"@, name) || names(
        s.manifest@,
        "devDependencies"@,
        name,
    ) || names(s.manifest@, "dependencies"@, name) {
        assert(deps.contains(name));
        let k = choose|k: int| 0 <= k < deps.len() && deps[k] == name;
        match p.depends_on {
            OptionConfig::List(v) => {
                assert(text::texts(v@)[k] == v@[k]@);
            },
            OptionConfig::Absent(_) => {},
        }
    }
    match p.depends_on {
        OptionConfig::List(v) => {
            if exists|i: int| 0 <= i < v@.len() && (#[trigger] v@[i])@ == name {
                let k = choose|i: int| 0 <= i < v@.len() && (#[trigger] v@[i])@ == name;
                assert(text::texts(v@)[k] == name);
                assert(deps[k] == name);
            }
        },
        OptionConfig::Absent(_) => {},
    }
}

proof fn lemma_declared(manifest: JsonView, name: Seq<char>)
    ensures
        declared_deps(manifest).contains(name) <==> names(manifest, "peerDependencies"@, name)
            || names(manifest, "devDependencies"@, name) || names(
            manifest,
            "dependencies"@,
            name,
        ),
{
    let peer = field_names(field_of(manifest, "peerDependencies"@));
    let dev = field_names(field_of(manifest, "devDependencies"@));
    let rest = field_names(field_of(manifest, "dependencies"@));
    lemma_field_names(manifest, "peerDependencies"@, name);
    lemma_field_names(manifest, "devDependencies"@, name);
    lemma_field_names(manifest, "dependencies"@, name);
    lemma_concat_contains(peer, dev, name);
    lemma_concat_contains(peer + dev, rest, name);
}

/// What a drawn-up project depends on is listed in the workspace, and named once. It is listed
/// under no name at all only where a package without a name is.
pub proof fn lemma_drawn_up_depends_on_workspace(
    p: ConfigProject,
    s: ProjectSource,
    listing: JsonView,
    workspace: Seq<char>,
)
    requires
        drawn_up(p, s, listing, workspace),
    ensures
        p.depends_on matches OptionConfig::List(v) ==> {
            &&& v@.len() > 0
            &&& forall|i: int|
                0 <= i < v@.len() ==> (lists(listing, (#[trigger] v@[i])@) || v@[i]@.len() == 0)
            &&& forall|i: int, j: int|
                0 <= i < j < v@.len() ==> (#[trigger] v@[i])@ != (#[trigger] v@[j])@
        },
        p.depends_on matches OptionConfig::Absent(b) ==> !b,
{
    let known = listed_names(listing);
    let declared = declared_deps(s.manifest@);
    lemma_known_once(declared, known);
    let deps = known_once(declared, known);
    match p.depends_on {
        OptionConfig::List(v) => {
            assert forall|i: int| 0 <= i < v@.len() implies (lists(listing, (#[trigger] v@[i])@)
                || v@[i]@.len() == 0) by {
                assert(deps[i] == v@[i]@);
                assert(known.contains(deps[i]));
                let k = choose|k: int| 0 <= k < known.len() && known[k] == deps[i];
                let items = crate::json::items_of(listing);
                assert(known[k] == crate::config::listed(items[k]).0);
                if v@[i]@.len() > 0 {
                    assert(field_of(items[k], "name"@) == Some(JsonView::Str(v@[i]@)));
                }
            }
            assert forall|i: int, j: int| 0 <= i < j < v@.len() implies (#[trigger] v@[i])@ != (
            #[trigger] v@[j])@ by {
                assert(deps[i] == v@[i]@ && deps[j] == v@[j]@);
            }
        },
        OptionConfig::Absent(_) => {},
    }
}

/// A drawn-up project has one command for each script of its `package.json`, by the name of the
/// script. It stands for several scripts where its line begins with `/plexus`: for those that
/// the words behind the first one name. Its name is that of the package, and it has no
/// environment of its own.
pub proof fn lemma_drawn_up_commands(
    p: ConfigProject,
    s: ProjectSource,
    listing: JsonView,
    workspace: Seq<char>,
)
    requires
        drawn_up(p, s, listing, workspace),
    ensures
        p.name@ == s.name@,
        p.envs is None,
        match field_of(s.manifest@, "scripts"@) {
            Some(JsonView::Object(scripts)) => {
                &&& p.commands@.len() == scripts.len()
                &&& forall|i: int|
                    0 <= i < scripts.len() ==> {
                        let own = #[trigger] p.commands@[i]@;
                        match scripts[i].1 {
                            JsonView::Str(line) => if line.len() >= 7 && line.subrange(0, 7)
                                == "/plexus"@ {
                                let words = text::words(line);
                                &&& own matches ConfigCommandView::Plexus { name, actual_commands }
                                &&& name == scripts[i].0
                                &&& actual_commands.len() + 1 == words.len()
                                &&& forall|k: int|
                                    0 <= k < actual_commands.len() ==> #[trigger] actual_commands[k]
                                        == words[k + 1]
                            } else {
                                own == ConfigCommandView::Simple(scripts[i].0)
                            },
                            _ => own == ConfigCommandView::Simple(scripts[i].0),
                        }
                    }
            },
            _ => p.commands@.len() == 0,
        },
{
    reveal_strlit("/plexus");
    let all = command_views(p.commands@);
    assert(all.len() == p.commands@.len());
    match field_of(s.manifest@, "scripts"@) {
        Some(JsonView::Object(scripts)) => {
            assert forall|i: int| 0 <= i < scripts.len() implies {
                let own = #[trigger] p.commands@[i]@;
                match scripts[i].1 {
                    JsonView::Str(line) => if line.len() >= 7 && line.subrange(0, 7)
                        == "/plexus"@ {
                        let words = text::words(line);
                        &&& own matches ConfigCommandView::Plexus { name, actual_commands }
                        &&& name == scripts[i].0
                        &&& actual_commands.len() + 1 == words.len()
                        &&& forall|k: int|
                            0 <= k < actual_commands.len() ==> #[trigger] actual_commands[k]
                                == words[k + 1]
                    } else {
                        own == ConfigCommandView::Simple(scripts[i].0)
                    },
                    _ => own == ConfigCommandView::Simple(scripts[i].0),
                }
            } by {
                assert(all[i] == p.commands@[i]@);
                if let JsonView::Str(line) = scripts[i].1 {
                    if line.len() >= 7 {
                        assert(line.take(7) =~= line.subrange(0, 7));
                    }
                    if text::begins_with(line, "/plexus"@) {
                        crate::config::lemma_plexus_has_word(line);
                    }
                } else {
                    assert(!text::begins_with(Seq::<char>::empty(), "/plexus"@));
                }
            }
        },
        _ => {},
    }
}

/// The projects of a workspace are those that the package manager lists, but for the workspace
/// itself: each with its own path.
pub proof fn lemma_listed_projects(
    items: Seq<JsonView>,
    root: Seq<char>,
    name: Seq<char>,
    path: Seq<char>,
)
    requires
        name.len() > 0,
        path.len() > 0,
    ensures
        listed_but(items, root).contains((name, path)) <==> name != root && exists|i: int|
            0 <= i < items.len() && field_of(#[trigger] items[i], "name"@) == Some(
                JsonView::Str(name),
            ) && field_of(items[i], "path"@) == Some(JsonView::Str(path)),
    decreases items.len(),
{
    if items.len() > 0 {
        let less = items.drop_last();
        lemma_listed_projects(less, root, name, path);
        let before = listed_but(less, root);
        let all = listed_but(items, root);
        let last = items.last();
        let x = (name, path);
        assert(items[items.len() - 1] == last);
        if before.contains(x) {
            let k = choose|k: int| 0 <= k < before.len() && before[k] == x;
            assert(all[k] == x);
            let i = choose|i: int|
                0 <= i < less.len() && field_of(#[trigger] less[i], "name"@) == Some(
                    JsonView::Str(name),
                ) && field_of(less[i], "path"@) == Some(JsonView::Str(path));
            assert(items[i] == less[i]);
        }
        if all.contains(x) {
            let k = choose|k: int| 0 <= k < all.len() && all[k] == x;
            if k < before.len() {
                assert(before[k] == x);
            }
        }
        if name != root && field_of(last, "name"@) == Some(JsonView::Str(name)) && field_of(
            last,
            "path"@,
        ) == Some(JsonView::Str(path)) {
            assert(all[before.len() as int] == x);
        }
        if exists|i: int|
            0 <= i < items.len() && field_of(#[trigger] items[i], "name"@) == Some(
                JsonView::Str(name),
            ) && field_of(items[i], "path"@) == Some(JsonView::Str(path)) {
            let i = choose|i: int|
                0 <= i < items.len() && field_of(#[trigger] items[i], "name"@) == Some(
                    JsonView::Str(name),
                ) && field_of(items[i], "path"@) == Some(JsonView::Str(path));
            if i < less.len() {
                assert(less[i] == items[i]);
            }
        }
    }
}

/// A drawn-up project has one watch, which names nothing of its own and leaves out what packages
/// and builds leave behind.
pub proof fn lemma_drawn_up_watch(
    p: ConfigProject,
    s: ProjectSource,
    listing: JsonView,
    workspace: Seq<char>,
)
    requires
        drawn_up(p, s, listing, workspace),
    ensures
        p.watches matches Some(w) && w@.len() == 1 && w@[0].path is None && w@[0].includes is None
            && w@[0].exclude is None && ({
            let out = w@[0].default_exclude@;
            &&& out.len() == 6
            &&& out[0]@ == "node_modules/**"@
            &&& out[1]@ == "dist/**"@
            &&& out[2]@ == "build/**"@
            &&& out[3]@ == "out/**"@
            &&& out[4]@ == "target/**"@
            &&& out[5]@ == "**/*.log"@
        }),
{
    let w = p.watches->0;
    let out = w@[0].default_exclude@;
    let all = text::texts(out);
    assert(all.len() == out.len());
    assert(all[0] == out[0]@ && all[1] == out[1]@ && all[2] == out[2]@);
    assert(all[3] == out[3]@ && all[4] == out[4]@ && all[5] == out[5]@);
}

} // verus!
