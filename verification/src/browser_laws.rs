//! What holds of the places on disk, of the browsers and of the extension in
//! them.

use crate::browser::any_yes;
use crate::browser::brave;
use crate::browser::chrome;
use crate::browser::edge;
use crate::browser::installed;
use crate::browser::lacking;
use crate::browser::names_written;
use crate::browser::opera;
use crate::browser::profile_names;
use crate::browser::status_of;
use crate::browser::targets;
use crate::browser::BrowserView;
use crate::browser::Candidate;
use crate::browser::ExtensionStatus;
use crate::browser::Finding;
use crate::browser::Folders;
use crate::paths::in_config;
use crate::paths::in_folder;
use crate::paths::PathView;
use crate::text::first_at;
use crate::text::lemma_first_at;
use crate::text::occurs_at;
use crate::text::substituted;
use crate::text_laws::law_substituted;
use vstd::prelude::*;

verus! {

// ---------------------------------------------------------------------------
// Places
// ---------------------------------------------------------------------------

/// A step further keeps the folder and the steps before it.
pub proof fn law_step_further(p: PathView, part: Seq<char>)
    ensures
        p.join(part).folder == p.folder,
        p.join(part).parts.len() == p.parts.len() + 1,
        p.join(part).parts.drop_last() == p.parts,
        p.join(part).parts.last() == part,
{
    assert(p.join(part).parts.drop_last() =~= p.parts);
}

/// A place in a folder is one step into it; one in the program's part of the
/// configuration folder is a step beyond `YDM`.
pub proof fn law_places(folder: Seq<char>, name: Seq<char>)
    ensures
        in_folder(folder, name).folder == Some(folder),
        in_folder(folder, name).parts.len() == 1,
        in_folder(folder, name).parts[0] == name,
        in_config(name).folder is None,
        in_config(name).parts.len() == 2,
        in_config(name).parts[0] == "YDM"@,
        in_config(name).parts[1] == name,
{
}

// ---------------------------------------------------------------------------
// Browsers
// ---------------------------------------------------------------------------

/// Answers hold a yes exactly where one of them is.
pub proof fn law_any_yes(answers: Seq<bool>, answer: bool)
    ensures
        !any_yes(Seq::empty()),
        any_yes(answers.push(answer)) <==> answer || any_yes(answers),
{
    let all = answers.push(answer);
    if any_yes(all) {
        let i = choose|i: int| 0 <= i < all.len() && #[trigger] all[i];
        if i < answers.len() {
            assert(answers[i]);
        }
    }
    if answer {
        assert(all[answers.len() as int]);
    }
    if any_yes(answers) {
        let i = choose|i: int| 0 <= i < answers.len() && #[trigger] answers[i];
        assert(all[i]);
    }
}

/// The installed browsers are those of which a program was found, in the order
/// in which they were looked for.
pub proof fn law_installed_in_order(cs: Seq<Candidate>, c: Candidate)
    ensures
        installed(Seq::empty()).len() == 0,
        (exists|i: int| 0 <= i < c.exist@.len() && #[trigger] c.exist@[i]) ==> installed(cs.push(c))
            == installed(cs).push(c.browser),
        (forall|i: int| 0 <= i < c.exist@.len() ==> !#[trigger] c.exist@[i]) ==> installed(
            cs.push(c),
        ) == installed(cs),
{
    assert(cs.push(c).drop_last() =~= cs);
}

/// The extension counts as there where it stands in a profile whose folder
/// exists, or in the registry.
pub proof fn law_extension_is_there(f: Finding)
    ensures
        status_of(f).browser == f.browser,
        status_of(f).in_registry == f.in_registry,
        f.in_registry ==> status_of(f).present(),
        !f.base_exists ==> !status_of(f).in_profile,
        f.base_exists ==> (status_of(f).in_profile <==> exists|i: int|
            0 <= i < f.exist@.len() && #[trigger] f.exist@[i]),
        !status_of(f).in_profile && !f.in_registry ==> !status_of(f).present(),
        status_of(f).in_profile ==> status_of(f).present(),
{
}

/// The profiles that are looked into, none of them twice.
pub proof fn law_profiles()
    ensures
        profile_names().len() == 4,
        profile_names().contains("Default"@),
        profile_names().contains("Profile 1"@),
        profile_names().contains("Profile 2"@),
        profile_names().contains("Guest Profile"@),
        profile_names().no_duplicates(),
{
    reveal_strlit("Default");
    reveal_strlit("Profile 1");
    reveal_strlit("Profile 2");
    reveal_strlit("Guest Profile");
    let p = profile_names();
    assert(p[0].len() == 7 && p[3].len() == 13);
    assert(p[1][8] == '1' && p[2][8] == '2');
    assert(p[1].len() == 9 && p[2].len() == 9);
    assert(p[0] == "Default"@ && p[1] == "Profile 1"@ && p[2] == "Profile 2"@ && p[3]
        == "Guest Profile"@);
}

/// A template that ends in `{id}`, without another brace, becomes what stands
/// before the braces with the identifier behind it.
pub proof fn law_template(front: Seq<char>, id: Seq<char>)
    requires
        !front.contains('{'),
    ensures
        substituted(front + "{id}"@, "{id}"@, id) == front + id,
{
    reveal_strlit("{id}");
    let pat = "{id}"@;
    let s = front + pat;
    let n = front.len() as int;
    law_substituted(s, pat, id);
    lemma_first_at(s, pat, 0);
    assert(s.subrange(n, n + pat.len()) =~= pat);
    assert(occurs_at(s, pat, n));
    let i = first_at(s, pat, 0)->0;
    if i < n {
        assert(s.subrange(i, i + pat.len())[0] == s[i]);
        assert(front[i] == '{');
    }
    assert(i == n);
    assert(s.take(n) =~= front);
    let none = s.skip(n + pat.len());
    assert(none.len() == 0);
    law_substituted(none, pat, id);
    lemma_first_at(none, pat, 0);
    assert(substituted(none, pat, id) == none);
    assert(front + id + none =~= front + id);
}

/// A browser keeps its extensions under `front` in the registry.
pub open spec fn keeps_extensions_under(b: BrowserView, front: Seq<char>) -> bool {
    forall|id: Seq<char>| #[trigger] substituted(b.reg_tpl, "{id}"@, id) == front + id
}

/// Where the browsers keep their extensions in the registry: Edge under its own
/// key, the others under that of Chrome.
pub proof fn law_registry_keys(f: Folders)
    ensures
        keeps_extensions_under(chrome(f), "Software\\Google\\Chrome\\Extensions\\"@),
        keeps_extensions_under(edge(f), "Software\\Microsoft\\Edge\\Extensions\\"@),
        keeps_extensions_under(brave(f), "Software\\Google\\Chrome\\Extensions\\"@),
        keeps_extensions_under(opera(f), "Software\\Google\\Chrome\\Extensions\\"@),
{
    reveal_strlit("{id}");
    reveal_strlit("Software\\Google\\Chrome\\Extensions\\");
    reveal_strlit("Software\\Google\\Chrome\\Extensions\\{id}");
    reveal_strlit("Software\\Microsoft\\Edge\\Extensions\\");
    reveal_strlit("Software\\Microsoft\\Edge\\Extensions\\{id}");
    let g = "Software\\Google\\Chrome\\Extensions\\"@;
    let m = "Software\\Microsoft\\Edge\\Extensions\\"@;
    assert("Software\\Google\\Chrome\\Extensions\\{id}"@ =~= g + "{id}"@);
    assert("Software\\Microsoft\\Edge\\Extensions\\{id}"@ =~= m + "{id}"@);
    assert(!g.contains('{'));
    assert(!m.contains('{'));
    assert forall|id: Seq<char>| #[trigger] substituted(g + "{id}"@, "{id}"@, id) == g + id by {
        law_template(g, id);
    }
    assert forall|id: Seq<char>| #[trigger] substituted(m + "{id}"@, "{id}"@, id) == m + id by {
        law_template(m, id);
    }
}

/// The places of a browser's program are `exe` in each of three folders, in
/// that order.
pub open spec fn stands_in(
    b: BrowserView,
    exe: Seq<char>,
    first: Seq<char>,
    second: Seq<char>,
    third: Seq<char>,
) -> bool {
    &&& b.exe_paths.len() == 3
    &&& b.exe_paths[0].folder == Some(first)
    &&& b.exe_paths[1].folder == Some(second)
    &&& b.exe_paths[2].folder == Some(third)
    &&& forall|i: int| 0 <= i < 3 ==> (#[trigger] b.exe_paths[i]).parts == seq![exe]
}

/// Where the browsers are looked for, and where they keep their profiles.
pub proof fn law_browser_places(f: Folders)
    ensures
        stands_in(
            chrome(f),
            "Google\\Chrome\\Application\\chrome.exe"@,
            f.local@,
            f.pf@,
            f.pf86@,
        ),
        stands_in(
            edge(f),
            "Microsoft\\Edge\\Application\\msedge.exe"@,
            f.pf@,
            f.pf86@,
            f.local@,
        ),
        stands_in(
            brave(f),
            "BraveSoftware\\Brave-Browser\\Application\\brave.exe"@,
            f.pf@,
            f.pf86@,
            f.local@,
        ),
        opera(f).exe_paths == seq![
            in_folder(f.appd@, "Opera Software\\Opera Stable\\opera.exe"@),
            in_folder(f.local@, "Programs\\Opera\\opera.exe"@),
            in_folder(f.pf@, "Opera\\opera.exe"@),
            in_folder(f.pf86@, "Opera\\opera.exe"@),
        ],
        chrome(f).profile_base == in_folder(f.local@, "Google\\Chrome\\User Data"@),
        edge(f).profile_base == in_folder(f.local@, "Microsoft\\Edge\\User Data"@),
        brave(f).profile_base == in_folder(f.appd@, "BraveSoftware\\Brave-Browser\\User Data"@),
        opera(f).profile_base == in_folder(f.appd@, "Opera Software\\Opera Stable"@),
        chrome(f).key == "chrome"@ && chrome(f).name == "Google Chrome"@,
        edge(f).key == "edge"@ && edge(f).name == "Microsoft Edge"@,
        brave(f).key == "brave"@ && brave(f).name == "Brave Browser"@,
        opera(f).key == "opera"@ && opera(f).name == "Opera"@,
{
}

// ---------------------------------------------------------------------------
// Registry keys
// ---------------------------------------------------------------------------

/// The browsers that get a registry key do so in their order, each once.
pub proof fn law_keys_in_order(statuses: Seq<ExtensionStatus>, no_crx: bool, a: int, b: int)
    requires
        0 <= a < b < targets(statuses, no_crx).len(),
    ensures
        targets(statuses, no_crx)[a] < targets(statuses, no_crx)[b],
{
    lemma_lacking_increases(statuses, statuses.len() as int, a, b);
}

/// The positions among the first `n` statuses grow, and stay below `n`.
proof fn lemma_lacking_increases(statuses: Seq<ExtensionStatus>, n: int, a: int, b: int)
    requires
        0 <= a <= b < lacking(statuses, n).len(),
    ensures
        a < b ==> lacking(statuses, n)[a] < lacking(statuses, n)[b],
        lacking(statuses, n)[b] < n,
    decreases n,
{
    if n > 0 {
        let before = lacking(statuses, n - 1);
        if b < before.len() {
            lemma_lacking_increases(statuses, n - 1, a, b);
        } else if a < before.len() {
            lemma_lacking_increases(statuses, n - 1, a, a);
        }
    }
}

/// The names reported are those of the browsers whose key was written, in
/// order: one more browser adds its name behind the others if its key was.
pub proof fn law_written_names(
    statuses: Seq<ExtensionStatus>,
    at: Seq<int>,
    written: Seq<bool>,
    position: int,
    done: bool,
)
    requires
        at.len() == written.len(),
    ensures
        names_written(statuses, at, written, 0).len() == 0,
        ({
            let n = at.len() as int;
            let names = names_written(statuses, at, written, n);
            names_written(statuses, at.push(position), written.push(done), n + 1) == if done {
                names.push(statuses[position].browser.name@)
            } else {
                names
            }
        }),
{
    lemma_names_before(statuses, at, written, position, done, at.len() as int);
}

/// What comes behind does not change the names before it.
proof fn lemma_names_before(
    statuses: Seq<ExtensionStatus>,
    at: Seq<int>,
    written: Seq<bool>,
    position: int,
    done: bool,
    n: int,
)
    requires
        n <= at.len() == written.len(),
    ensures
        names_written(statuses, at.push(position), written.push(done), n) == names_written(
            statuses,
            at,
            written,
            n,
        ),
    decreases n,
{
    if n > 0 {
        lemma_names_before(statuses, at, written, position, done, n - 1);
    }
}

} // verus!
