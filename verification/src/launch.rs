//! What an instance is started with: the directories that it sees, and its environment.
use vstd::prelude::*;
use vstd::string::{StrSliceExecFns, StringExecFns};
use crate::text::{decimal, lemma_decimal_digits, lemma_decimal_injective, to_decimal};
use crate::wasm::{lemma_views_push, views};

verus! {

/// What `heck::ToSnakeCase::to_snake_case` makes of a name.
pub uninterp spec fn snake_case(name: Seq<char>) -> Seq<char>;

/// `heck::ToSnakeCase::to_snake_case`: the words of a name in lower case, with underscores
/// between them.
#[verifier::external_body]
fn to_snake_case(name: &String) -> (r: String)
    ensures
        r@ == snake_case(name@),
{
    heck::ToSnakeCase::to_snake_case(name.as_str())
}

/// `String::push` appends a character.
pub assume_specification[ String::push ](s: &mut String, c: char)
    ensures
        final(s)@ == old(s)@.push(c),
;

/// The directory in which the code that is generated for a world goes.
pub fn world_dir(world: &String) -> (dir: String)
    ensures
        dir@ == snake_case(world@),
{
    to_snake_case(world)
}

/// The parts of a text between delimiters.
pub open spec fn split(s: Seq<char>, delimiter: char) -> Seq<Seq<char>>
    decreases s.len(),
{
    if s.len() == 0 {
        seq![seq![]]
    } else {
        let rest = split(s.drop_last(), delimiter);
        if s.last() == delimiter {
            rest.push(seq![])
        } else {
            rest.drop_last().push(rest.last().push(s.last()))
        }
    }
}

/// Parts put together, with delimiters between them.
pub open spec fn join(parts: Seq<Seq<char>>, delimiter: char) -> Seq<char>
    decreases parts.len(),
{
    if parts.len() == 0 {
        seq![]
    } else if parts.len() == 1 {
        parts[0]
    } else {
        join(parts.drop_last(), delimiter).push(delimiter) + parts.last()
    }
}

/// There is at least one part, and no part holds a delimiter.
pub proof fn law_parts_hold_no_delimiter(s: Seq<char>, delimiter: char)
    ensures
        split(s, delimiter).len() > 0,
        forall|k: int|
            0 <= k < split(s, delimiter).len() ==> !(#[trigger] split(s, delimiter)[k]).contains(
                delimiter,
            ),
    decreases s.len(),
{
    if s.len() > 0 {
        law_parts_hold_no_delimiter(s.drop_last(), delimiter);
        let rest = split(s.drop_last(), delimiter);
        let parts = split(s, delimiter);
        assert forall|k: int| 0 <= k < parts.len() implies !(#[trigger] parts[k]).contains(
            delimiter,
        ) by {
            if s.last() == delimiter {
                if k < rest.len() {
                    assert(parts[k] == rest[k]);
                }
            } else if k < rest.len() - 1 {
                assert(parts[k] == rest[k]);
            } else {
                let last = rest.last();
                assert(!rest[rest.len() - 1].contains(delimiter));
                assert(parts[k] == last.push(s.last()));
                if parts[k].contains(delimiter) {
                    let i = choose|i: int| 0 <= i < parts[k].len() && parts[k][i] == delimiter;
                    if i < last.len() {
                        assert(last[i] == delimiter);
                        assert(last.contains(delimiter));
                    }
                }
            }
        }
    }
}

/// The parts of a text, put together again, are the text.
pub proof fn law_parts_make_the_whole(s: Seq<char>, delimiter: char)
    ensures
        join(split(s, delimiter), delimiter) == s,
    decreases s.len(),
{
    if s.len() == 0 {
        assert(split(s, delimiter)[0] =~= s);
    } else {
        let t = s.drop_last();
        let rest = split(t, delimiter);
        let parts = split(s, delimiter);
        law_parts_make_the_whole(t, delimiter);
        law_parts_hold_no_delimiter(t, delimiter);
        if s.last() == delimiter {
            assert(parts.drop_last() =~= rest);
            assert(join(parts, delimiter) =~= s);
        } else {
            assert(parts.drop_last() =~= rest.drop_last());
            assert(join(parts, delimiter) =~= join(rest, delimiter).push(s.last()));
            assert(t.push(s.last()) =~= s);
        }
    }
}

/// The parts of two texts with a delimiter between them are those of one and then those
/// of the other.
pub proof fn law_parts_of_two(a: Seq<char>, b: Seq<char>, delimiter: char)
    ensures
        split(a.push(delimiter) + b, delimiter) == split(a, delimiter) + split(b, delimiter),
    decreases b.len(),
{
    let s = a.push(delimiter) + b;
    if b.len() == 0 {
        assert(s.drop_last() =~= a);
        assert(split(s, delimiter) =~= split(a, delimiter) + split(b, delimiter));
    } else {
        law_parts_of_two(a, b.drop_last(), delimiter);
        law_parts_hold_no_delimiter(b.drop_last(), delimiter);
        assert(s.drop_last() =~= a.push(delimiter) + b.drop_last());
        assert(split(s, delimiter) =~= split(a, delimiter) + split(b, delimiter));
    }
}

/// A directory of the host, and the name under which an instance sees it.
#[derive(Debug, PartialEq, Eq)]
pub struct Mount {
    pub host: String,
    pub guest: String,
}

pub struct MountV {
    pub host: Seq<char>,
    pub guest: Seq<char>,
}

impl View for Mount {
    type V = MountV;

    open spec fn view(&self) -> MountV {
        MountV { host: self.host@, guest: self.guest@ }
    }
}

/// The directories of a search path, each seen under its number.
pub open spec fn numbered(parts: Seq<Seq<char>>) -> Seq<MountV> {
    Seq::new(parts.len(), |k: int| MountV { host: parts[k], guest: decimal(k as nat) })
}

/// Where the modules of an application are looked for: in the directories of its search
/// path, and then in that of the generated code.
pub open spec fn search_path(
    python_path: Seq<char>,
    generated: Seq<char>,
    delimiter: char,
) -> Seq<Seq<char>> {
    split(python_path.push(delimiter) + generated, delimiter)
}

fn split_text(s: &String, delimiter: char) -> (parts: Vec<String>)
    ensures
        views(parts@) == split(s@, delimiter),
{
    let text = s.as_str();
    let n: usize = text.unicode_len();
    let mut parts: Vec<String> = Vec::new();
    let mut start: usize = 0;
    let mut i: usize = 0;
    assert(s@.subrange(0, 0) =~= seq![]);
    assert(views(parts@).push(s@.subrange(0, 0)) =~= split(s@.take(0), delimiter));
    while i < n
        invariant
            n == s@.len(),
            text@ == s@,
            start <= i <= n,
            views(parts@).push(s@.subrange(start as int, i as int)) == split(
                s@.take(i as int),
                delimiter,
            ),
        decreases n - i,
    {
        let ghost known = views(parts@);
        assert(s@.take(i + 1).drop_last() =~= s@.take(i as int));
        assert(s@.take(i + 1).last() == s@[i as int]);
        if text.get_char(i) == delimiter {
            let part = String::from_str(text.substring_char(start, i));
            proof {
                lemma_views_push(parts@, part);
            }
            parts.push(part);
            start = i + 1;
            assert(s@.subrange(start as int, i + 1) =~= seq![]);
        } else {
            let ghost before = s@.subrange(start as int, i as int);
            assert(s@.subrange(start as int, i + 1) =~= before.push(s@[i as int]));
            assert(known.push(before).drop_last() =~= known);
        }
        i += 1;
    }
    assert(s@.take(i as int) =~= s@);
    let part = String::from_str(text.substring_char(start, n));
    proof {
        lemma_views_push(parts@, part);
    }
    parts.push(part);
    parts
}

/// The directories that an instance sees besides that of the standard library.
pub fn python_mounts(python_path: &String, generated: &String, delimiter: char) -> (mounts: Vec<
    Mount,
>)
    ensures
        views(mounts@) == numbered(search_path(python_path@, generated@, delimiter)),
        mounts@.len() > 0,
{
    let mut path = python_path.clone();
    path.push(delimiter);
    path.append(generated.as_str());
    let parts = split_text(&path, delimiter);
    let ghost hosts = views(parts@);
    let ghost all = numbered(hosts);
    let mut mounts: Vec<Mount> = Vec::new();
    assert(views(mounts@) =~= all.take(0));
    let mut i: usize = 0;
    while i < parts.len()
        invariant
            i <= parts.len(),
            hosts == views(parts@),
            all == numbered(hosts),
            views(mounts@) == all.take(i as int),
        decreases parts.len() - i,
    {
        let mount = Mount { host: parts[i].clone(), guest: to_decimal(i as u64) };
        proof {
            lemma_views_push(mounts@, mount);
            assert(hosts[i as int] == parts@[i as int]@);
            assert(all.take(i + 1) =~= all.take(i as int).push(mount@));
        }
        mounts.push(mount);
        i += 1;
    }
    proof {
        assert(all.take(i as int) =~= all);
        law_parts_hold_no_delimiter(path@, delimiter);
    }
    mounts
}

/// The numbered directories as an instance sees them.
pub open spec fn guest_dirs(count: nat) -> Seq<char>
    decreases count,
{
    if count == 0 {
        seq![]
    } else {
        guest_dirs((count - 1) as nat) + (if count == 1 {
            "/"@
        } else {
            ":/"@
        }) + decimal((count - 1) as nat)
    }
}

/// The search path as an instance sees it: the standard library, and then the numbered
/// directories.
pub open spec fn guest_path(count: nat) -> Seq<char> {
    "/python:"@ + guest_dirs(count)
}

/// Writes the search path as an instance sees it, where there are so many directories
/// besides that of the standard library.
pub fn guest_python_path(count: usize) -> (path: String)
    ensures
        path@ == guest_path(count as nat),
{
    let mut path = String::from_str("/python:");
    assert(path@ =~= guest_path(0));
    let mut i: usize = 0;
    while i < count
        invariant
            i <= count,
            path@ == guest_path(i as nat),
        decreases count - i,
    {
        if i == 0 {
            path.append("/");
        } else {
            path.append(":/");
        }
        path.append(to_decimal(i as u64).as_str());
        i += 1;
        assert(path@ =~= guest_path(i as nat));
    }
    path
}

/// A variable of the environment.
#[derive(Debug, PartialEq, Eq)]
pub struct Variable {
    pub name: String,
    pub value: String,
}

pub struct VariableV {
    pub name: Seq<char>,
    pub value: Seq<char>,
}

impl View for Variable {
    type V = VariableV;

    open spec fn view(&self) -> VariableV {
        VariableV { name: self.name@, value: self.value@ }
    }
}

/// The environment of an instance that runs the given application.
pub open spec fn variables(app_name: Seq<char>, count: nat) -> Seq<VariableV> {
    seq![
        VariableV { name: "PYTHONUNBUFFERED"@, value: "1"@ },
        VariableV { name: "COMPONENTIZE_PY_APP_NAME"@, value: app_name },
        VariableV { name: "PYTHONHOME"@, value: "/python"@ },
        VariableV { name: "PYTHONPATH"@, value: guest_path(count) },
    ]
}

/// Collects the environment of an instance that runs the given application and sees so
/// many directories besides that of the standard library.
pub fn environment(app_name: &String, count: usize) -> (list: Vec<Variable>)
    ensures
        views(list@) == variables(app_name@, count as nat),
{
    let list = vec![
        Variable { name: String::from_str("PYTHONUNBUFFERED"), value: String::from_str("1") },
        Variable {
            name: String::from_str("COMPONENTIZE_PY_APP_NAME"),
            value: app_name.clone(),
        },
        Variable { name: String::from_str("PYTHONHOME"), value: String::from_str("/python") },
        Variable { name: String::from_str("PYTHONPATH"), value: guest_python_path(count) },
    ];
    assert(views(list@) =~= variables(app_name@, count as nat));
    list
}

/// The numbered directories are those of the search path of the application, and then
/// those of the generated code.
pub proof fn law_generated_code_comes_last(
    python_path: Seq<char>,
    generated: Seq<char>,
    delimiter: char,
)
    requires
        !generated.contains(delimiter),
    ensures
        search_path(python_path, generated, delimiter) == split(python_path, delimiter).push(
            generated,
        ),
{
    law_parts_of_two(python_path, generated, delimiter);
    lemma_one_part(generated, delimiter);
    assert(search_path(python_path, generated, delimiter) =~= split(python_path, delimiter).push(
        generated,
    ));
}

proof fn lemma_one_part(s: Seq<char>, delimiter: char)
    requires
        !s.contains(delimiter),
    ensures
        split(s, delimiter) == seq![s],
    decreases s.len(),
{
    if s.len() > 0 {
        let t = s.drop_last();
        assert forall|i: int| 0 <= i < t.len() implies t[i] != delimiter by {
            assert(s[i] == t[i]);
            assert(s.contains(s[i]));
        }
        assert(s.contains(s.last()));
        lemma_one_part(t, delimiter);
        assert(t.push(s.last()) =~= s);
        assert(split(s, delimiter) =~= seq![s]);
    } else {
        assert(s =~= seq![]);
    }
}

/// An instance finds the name of the application, as it was given, in one variable.
pub proof fn law_environment_holds_the_application_name(app_name: Seq<char>, count: nat)
    ensures
        exists|k: int|
            {
                &&& 0 <= k < variables(app_name, count).len()
                &&& (#[trigger] variables(app_name, count)[k]).name
                    == "COMPONENTIZE_PY_APP_NAME"@
                &&& variables(app_name, count)[k].value == app_name
            },
        forall|k: int|
            0 <= k < variables(app_name, count).len() && (#[trigger] variables(
                app_name,
                count,
            )[k]).name == "COMPONENTIZE_PY_APP_NAME"@ ==> variables(app_name, count)[k].value
                == app_name,
{
    lemma_variable_names();
    assert(variables(app_name, count)[1].value == app_name);
}

proof fn lemma_variable_names()
    ensures
        "PYTHONUNBUFFERED"@.len() == 16,
        "COMPONENTIZE_PY_APP_NAME"@.len() == 24,
        "PYTHONHOME"@.len() == 10,
        "PYTHONPATH"@.len() == 10,
        "PYTHONHOME"@ != "PYTHONPATH"@,
{
    reveal_strlit("PYTHONUNBUFFERED");
    reveal_strlit("COMPONENTIZE_PY_APP_NAME");
    reveal_strlit("PYTHONHOME");
    reveal_strlit("PYTHONPATH");
    assert("PYTHONHOME"@[6] == 'H');
    assert("PYTHONPATH"@[6] == 'P');
}

/// The rest of the environment does not depend on the application: output is not buffered,
/// the standard library is in one directory, and that directory comes first in the search
/// path, before the numbered ones in order.  No variable occurs twice.
pub proof fn law_environment_finds_the_directories(app_name: Seq<char>, count: nat)
    requires
        count > 0,
    ensures
        ({
            let list = variables(app_name, count);
            &&& list.len() == 4
            &&& list[0].name == "PYTHONUNBUFFERED"@ && list[0].value == "1"@
            &&& list[2].name == "PYTHONHOME"@ && list[2].value == "/python"@
            &&& list[3].name == "PYTHONPATH"@
            &&& split(list[3].value, ':').len() == count + 1
            &&& split(list[3].value, ':')[0] == list[2].value
            &&& forall|k: int|
                0 <= k < count ==> #[trigger] split(list[3].value, ':')[k + 1] == "/"@ + decimal(
                    k as nat,
                )
            &&& forall|i: int, j: int|
                0 <= i < j < 4 ==> (#[trigger] list[i]).name != (#[trigger] list[j]).name
        }),
{
    let list = variables(app_name, count);
    lemma_variable_names();
    lemma_guest_dirs(count);
    reveal_strlit("/python:");
    reveal_strlit("/python");
    assert("/python:"@ =~= "/python"@.push(':'));
    law_parts_of_two("/python"@, guest_dirs(count), ':');
    assert(!"/python"@.contains(':'));
    lemma_one_part("/python"@, ':');
    assert(split(list[3].value, ':') == seq!["/python"@] + split(guest_dirs(count), ':'));
    assert forall|i: int, j: int| 0 <= i < j < 4 implies (#[trigger] list[i]).name != (
    #[trigger] list[j]).name by {
        assert(i == 0 || i == 1 || i == 2);
        assert(j == 1 || j == 2 || j == 3);
    }
    assert forall|k: int| 0 <= k < count implies #[trigger] split(list[3].value, ':')[k + 1]
        == "/"@ + decimal(k as nat) by {
        assert(split(list[3].value, ':')[k + 1] == split(guest_dirs(count), ':')[k]);
    }
}

proof fn lemma_guest_dirs(count: nat)
    requires
        count > 0,
    ensures
        split(guest_dirs(count), ':').len() == count,
        forall|k: int|
            0 <= k < count ==> #[trigger] split(guest_dirs(count), ':')[k] == "/"@ + decimal(
                k as nat,
            ),
    decreases count,
{
    let last = (count - 1) as nat;
    let dir = "/"@ + decimal(last);
    reveal_strlit("/");
    reveal_strlit(":/");
    lemma_decimal_digits(last);
    assert(!dir.contains(':')) by {
        if dir.contains(':') {
            let i = choose|i: int| 0 <= i < dir.len() && dir[i] == ':';
            if i > 0 {
                assert(dir[i] == decimal(last)[i - 1]);
            }
        }
    }
    lemma_one_part(dir, ':');
    reveal_with_fuel(guest_dirs, 2);
    if count == 1 {
        assert(guest_dirs(count) =~= dir);
    } else {
        lemma_guest_dirs(last);
        assert(guest_dirs(count) =~= guest_dirs(last).push(':') + dir);
        law_parts_of_two(guest_dirs(last), dir, ':');
    }
}

/// The directories that an instance sees are those of the search path of the application and
/// of the generated code, in order: put together again they are the two, no one of them holds
/// a delimiter, and the names under which they are seen are the numbers from zero up.
pub proof fn law_mounts_are_the_search_path(
    python_path: Seq<char>,
    generated: Seq<char>,
    delimiter: char,
)
    ensures
        ({
            let mounts = numbered(search_path(python_path, generated, delimiter));
            let hosts = Seq::new(mounts.len(), |k: int| mounts[k].host);
            &&& join(hosts, delimiter) == python_path + seq![delimiter] + generated
            &&& forall|k: int|
                0 <= k < mounts.len() ==> !(#[trigger] mounts[k]).host.contains(delimiter)
                    && mounts[k].guest == decimal(k as nat)
        }),
{
    let whole = python_path.push(delimiter) + generated;
    let parts = search_path(python_path, generated, delimiter);
    let mounts = numbered(parts);
    let hosts = Seq::new(mounts.len(), |k: int| mounts[k].host);
    assert(hosts =~= parts);
    law_parts_make_the_whole(whole, delimiter);
    law_parts_hold_no_delimiter(whole, delimiter);
    assert(whole =~= python_path + seq![delimiter] + generated);
    assert forall|k: int| 0 <= k < mounts.len() implies !(#[trigger] mounts[k]).host.contains(
        delimiter,
    ) && mounts[k].guest == decimal(k as nat) by {
        assert(mounts[k].host == parts[k]);
    }
}

/// No two directories are seen under the same name.
pub proof fn law_mounts_have_names_of_their_own(parts: Seq<Seq<char>>, i: int, j: int)
    requires
        0 <= i < j < numbered(parts).len(),
    ensures
        numbered(parts)[i].guest != numbered(parts)[j].guest,
{
    if numbered(parts)[i].guest == numbered(parts)[j].guest {
        lemma_decimal_injective(i as nat, j as nat);
    }
}

} // verus!
