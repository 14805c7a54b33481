//! The memex directory: scoped archive paths, and which entries are archives.
use vstd::prelude::*;

use crate::paths::{
    absolute, components, components_of, extension_of_name, is_absolute, join_path, joined, keeps,
    law_joined_components, law_joined_name, law_joined_two, law_name_and_extension,
    law_no_components, name_extension, name_stem, opt_str, plain_name, stem_of_name, under,
};
use crate::text::{
    cat, cat3, either, eq_ascii, lemma_split_nonempty, lower, same_ascii, same_str, split_char,
    views,
};
use crate::Error;

verus! {

/// The home directory from the variable that names it. Empty or unset is an
/// error.
pub fn home_dir(var: Option<&str>) -> (r: Result<String, Error>)
    ensures
        match opt_str(var) {
            Some(h) if h.len() > 0 => r matches Ok(s) && s@ == h,
            _ => r == Err::<String, Error>(Error::HomeUnset),
        },
{
    match var {
        Some(h) => {
            let s = h.to_owned();
            if s.is_empty() {
                Err(Error::HomeUnset)
            } else {
                Ok(s)
            }
        },
        None => Err(Error::HomeUnset),
    }
}

/// Default data directory: `home/memex`.
pub fn default_memex_dir(home: &str) -> (r: String)
    ensures
        r@ == joined(home@, "memex"@),
{
    join_path(home, "memex")
}

/// Why `value` cannot be a scope part: it is empty, absolute, or climbs.
pub open spec fn scope_fault(kind: Seq<char>, value: Seq<char>, example: Seq<char>) -> Option<
    Seq<char>,
> {
    if value.len() == 0 {
        Some(kind + " is empty; pass "@ + example)
    } else if absolute(value) {
        Some(kind + " must not be an absolute path"@)
    } else if components(value).contains(seq!['.', '.']) {
        Some(kind + " must not contain '..'"@)
    } else {
        None
    }
}

fn reject_scope_part(kind: &str, value: &str, example: &str) -> (r: Result<(), Error>)
    ensures
        match r {
            Ok(_) => scope_fault(kind@, value@, example@) is None,
            Err(Error::InvalidScope(m)) => scope_fault(kind@, value@, example@) == Some(m@),
            Err(_) => false,
        },
{
    if value.to_owned().is_empty() {
        return Err(Error::InvalidScope(cat3(kind, " is empty; pass ", example)));
    }
    if is_absolute(value) {
        return Err(Error::InvalidScope(cat(kind, " must not be an absolute path")));
    }
    let all = components_of(value);
    proof {
        reveal_strlit("..");
        assert(".."@ =~= seq!['.', '.']);
    }
    let mut i: usize = 0;
    while i < all.len()
        invariant
            i <= all@.len(),
            views(all@) == components(value@),
            ".."@ == seq!['.', '.'],
            value@.len() > 0,
            !absolute(value@),
            forall|k: int| 0 <= k < i ==> (#[trigger] all@[k])@ != seq!['.', '.'],
        decreases all.len() - i,
    {
        if same_str(all[i].as_str(), "..") {
            proof {
                assert(components(value@)[i as int] == seq!['.', '.']);
            }
            return Err(Error::InvalidScope(cat(kind, " must not contain '..'")));
        }
        i = i + 1;
    }
    proof {
        assert(!components(value@).contains(seq!['.', '.'])) by {
            if components(value@).contains(seq!['.', '.']) {
                let k = choose|k: int|
                    0 <= k < components(value@).len() && components(value@)[k] == seq!['.', '.'];
                assert(views(all@)[k] == all@[k]@);
            }
        }
    }
    Ok(())
}

/// Why a service and an account do not name an archive.
pub open spec fn scoped_fault(service: Seq<char>, account: Seq<char>) -> Option<Seq<char>> {
    match scope_fault("service"@, service, "a folder such as agents/grok"@) {
        Some(m) => Some(m),
        None => scope_fault("account"@, account, "a username file stem such as personal"@),
    }
}

/// The archive of a service and an account.
pub open spec fn scoped_path(memex_dir: Seq<char>, service: Seq<char>, account: Seq<char>) -> Seq<
    char,
> {
    joined(joined(memex_dir, service), account + ".majestic"@)
}

/// The archive of `account` under `memex_dir/{service}/`. The service is a
/// folder and may contain slashes. The account is a file stem.
pub fn scoped_archive_path(memex_dir: &str, service: &str, account: &str) -> (r: Result<
    String,
    Error,
>)
    ensures
        match r {
            Ok(path) => scoped_fault(service@, account@) is None && path@ == scoped_path(
                memex_dir@,
                service@,
                account@,
            ),
            Err(Error::InvalidScope(m)) => scoped_fault(service@, account@) == Some(m@),
            Err(_) => false,
        },
{
    match reject_scope_part("service", service, "a folder such as agents/grok") {
        Ok(_) => {},
        Err(e) => {
            return Err(e);
        },
    }
    match reject_scope_part("account", account, "a username file stem such as personal") {
        Ok(_) => {},
        Err(e) => {
            return Err(e);
        },
    }
    let folder = join_path(memex_dir, service);
    let name = cat(account, ".majestic");
    Ok(join_path(folder.as_str(), name.as_str()))
}

/// An accepted service and account never leave the memex directory.
pub proof fn law_scoped_path_stays_inside(
    memex_dir: Seq<char>,
    service: Seq<char>,
    account: Seq<char>,
)
    requires
        scoped_fault(service, account) is None,
    ensures
        under(scoped_path(memex_dir, service, account), memex_dir),
        ({
            let all = components(scoped_path(memex_dir, service, account));
            !all.skip(components(memex_dir).len() as int).contains(seq!['.', '.'])
        }),
{
    let up = seq!['.', '.'];
    let folder = joined(memex_dir, service);
    let name = account + ".majestic"@;
    let k = keeps();
    reveal_strlit(".majestic");
    assert(name[0] == account[0]);
    assert(folder.len() > 0);
    law_joined_components(folder, name);
    lemma_no_climb(service);
    lemma_no_climb_file(account);
    let a = split_char(service, '/').filter(k);
    let b = split_char(name, '/').filter(k);
    let all = components(scoped_path(memex_dir, service, account));
    let base = components(memex_dir);
    if memex_dir.len() > 0 {
        law_joined_components(memex_dir, service);
        assert(all =~= base + (a + b));
        assert(all.skip(base.len() as int) =~= a + b);
    } else {
        assert(base =~= Seq::<Seq<char>>::empty()) by {
            reveal_with_fuel(Seq::filter, 2);
            assert(split_char(memex_dir, '/') =~= seq![Seq::<char>::empty()]);
        }
        assert(folder == service);
        assert(all =~= components(service) + b);
        assert(all.skip(0) =~= all);
    }
    if all.skip(base.len() as int).contains(up) {
        let rest = all.skip(base.len() as int);
        let i = choose|i: int| 0 <= i < rest.len() && rest[i] == up;
        if memex_dir.len() > 0 {
            if i < a.len() {
                assert(a[i] == up);
                assert(a.contains(up));
            } else {
                assert(b[i - a.len()] == up);
                assert(b.contains(up));
            }
        } else {
            let c = components(service);
            if i < c.len() {
                assert(c[i] == up);
                assert(c.contains(up));
            } else {
                assert(b[i - c.len()] == up);
                assert(b.contains(up));
            }
        }
    }
}

/// A scope part without a climbing component adds none.
proof fn lemma_no_climb(value: Seq<char>)
    requires
        !absolute(value),
        !components(value).contains(seq!['.', '.']),
    ensures
        !split_char(value, '/').filter(keeps()).contains(seq!['.', '.']),
{
    let up = seq!['.', '.'];
    let rest = split_char(value, '/').filter(keeps());
    if rest.contains(up) {
        let i = choose|i: int| 0 <= i < rest.len() && rest[i] == up;
        let all = components(value);
        if all.len() == rest.len() {
            assert(all[i] == up);
        } else {
            assert(all[i + 1] == up);
        }
    }
}

/// The file of an account adds no climbing component.
proof fn lemma_no_climb_file(account: Seq<char>)
    requires
        !absolute(account),
        !components(account).contains(seq!['.', '.']),
    ensures
        !split_char(account + ".majestic"@, '/').filter(keeps()).contains(seq!['.', '.']),
{
    let up = seq!['.', '.'];
    let c = '/';
    let k = keeps();
    let t = ".majestic"@;
    reveal_strlit(".majestic");
    lemma_no_climb(account);
    assert(!t.contains(c));
    crate::paths::lemma_split_before(account, c, t);
    lemma_split_nonempty(account, either(c, c));
    let x = split_char(account, c);
    let y = split_char(account + t, c);
    let last = x.last() + t;
    assert(y =~= x.drop_last() + seq![last]);
    assert(x =~= x.drop_last() + seq![x.last()]);
    Seq::filter_distributes_over_add(x.drop_last(), seq![last], k);
    Seq::filter_distributes_over_add(x.drop_last(), seq![x.last()], k);
    let init = x.drop_last().filter(k);
    assert(seq![last].filter(k) =~= seq![last]) by {
        reveal_with_fuel(Seq::filter, 2);
        assert(last.len() >= 9);
        assert(seq![last].drop_last() =~= Seq::<Seq<char>>::empty());
    }
    let f = y.filter(k);
    assert(f =~= init + seq![last]);
    if f.contains(up) {
        let i = choose|i: int| 0 <= i < f.len() && f[i] == up;
        if i < init.len() {
            assert(x.filter(k)[i] == up);
            assert(x.filter(k).contains(up));
        } else {
            assert(last.len() >= 9);
            assert(f[i] == last);
        }
    }
}

/// What a directory entry is.
#[derive(Clone, Copy, Debug, PartialEq, Eq, Structural)]
pub enum EntryKind {
    /// A directory, and no link to one.
    Directory,
    /// A regular file, and no link to one.
    File,
    /// A link, or anything else.
    Other,
}

/// What listing does with a directory entry.
#[derive(Clone, Copy, Debug, PartialEq, Eq, Structural)]
pub enum ListStep {
    Skip,
    Descend,
    Keep,
}

/// The name of a readme file.
pub open spec fn readme_name(name: Seq<char>) -> bool {
    same_ascii(name, "README"@) || same_ascii(name, "README.md"@)
}

/// A file that is listed. `sibling` says that a `.majestic` file of the same
/// stem stands beside it.
pub open spec fn listed(name: Seq<char>, sibling: bool) -> bool {
    match name_extension(name) {
        Some(ext) => same_ascii(ext, "majestic"@) || (same_ascii(ext, "archive"@) && !sibling),
        None => false,
    }
}

/// What listing does with a directory entry. A nested directory named
/// `memex` is another data directory and not a service folder.
pub open spec fn list_step(name: Seq<char>, kind: EntryKind, sibling: bool) -> ListStep {
    if readme_name(name) {
        ListStep::Skip
    } else if kind == EntryKind::Directory {
        if name == "memex"@ {
            ListStep::Skip
        } else {
            ListStep::Descend
        }
    } else if kind == EntryKind::File && listed(name, sibling) {
        ListStep::Keep
    } else {
        ListStep::Skip
    }
}

/// Whether a name is that of a readme file.
fn is_readme_name(name: &str) -> (r: bool)
    ensures
        r == readme_name(name@),
{
    eq_ascii(name, "README") || eq_ascii(name, "README.md")
}

/// Whether a file is listed. Compressed files are not.
fn is_listed_archive_path(name: &str, sibling: bool) -> (r: bool)
    ensures
        r == listed(name@, sibling),
{
    match extension_of_name(name) {
        Some(ext) => eq_ascii(ext.as_str(), "majestic") || (eq_ascii(ext.as_str(), "archive")
            && !sibling),
        None => false,
    }
}

/// The `.majestic` name of the same stem, for a file that is listed only
/// without such a sibling.
pub fn majestic_sibling(name: &str) -> (r: Option<String>)
    ensures
        match name_extension(name@) {
            Some(ext) if same_ascii(ext, "archive"@) => r matches Some(s) && s@ == name_stem(name@)
                + ".majestic"@,
            _ => r is None,
        },
{
    match extension_of_name(name) {
        Some(ext) => {
            if eq_ascii(ext.as_str(), "archive") {
                let stem = stem_of_name(name);
                Some(cat(stem.as_str(), ".majestic"))
            } else {
                None
            }
        },
        None => None,
    }
}

/// What listing does with a directory entry.
pub fn list_decision(name: &str, kind: EntryKind, sibling: bool) -> (r: ListStep)
    ensures
        r == list_step(name@, kind, sibling),
{
    if is_readme_name(name) {
        return ListStep::Skip;
    }
    match kind {
        EntryKind::Directory => {
            if same_str(name, "memex") {
                ListStep::Skip
            } else {
                ListStep::Descend
            }
        },
        EntryKind::File => {
            if is_listed_archive_path(name, sibling) {
                ListStep::Keep
            } else {
                ListStep::Skip
            }
        },
        EntryKind::Other => ListStep::Skip,
    }
}

/// The archive of an account: its file in the folder of its service.
pub proof fn law_scoped_archive(
    memex_dir: Seq<char>,
    group: Seq<char>,
    service: Seq<char>,
    account: Seq<char>,
)
    requires
        plain_name(group),
        plain_name(service),
        plain_name(account),
    ensures
        components(scoped_path(memex_dir, group + seq!['/'] + service, account)) == components(
            memex_dir,
        ) + seq![group, service, account + ".majestic"@],
        scoped_fault(group + seq!['/'] + service, account) is None,
{
    reveal_strlit(".majestic");
    let both = group + seq!['/'] + service;
    let file = account + ".majestic"@;
    assert(both[0] == group[0]);
    assert(group.contains(group[0]));
    assert(account.contains(account[0]));
    assert(joined(group, service) =~= both || group.last() == '/');
    assert(group.contains(group[group.len() - 1]));
    law_joined_name(Seq::empty(), group);
    law_joined_name(group, service);
    assert(joined(Seq::<char>::empty(), group) == group);
    law_no_components();
    assert(components(group) =~= seq![group]);
    assert(components(both) =~= seq![group, service]);
    assert(file.len() > 2);
    assert(!file.contains('/')) by {
        if file.contains('/') {
            let i = choose|i: int| 0 <= i < file.len() && file[i] == '/';
            if i < account.len() {
                assert(account.contains(account[i]));
            } else {
                assert(file[i] == ".majestic"@[i - account.len()]);
            }
        }
    }
    if memex_dir.len() > 0 {
        law_joined_two(memex_dir, group, service);
        let there = joined(memex_dir, both);
        assert(joined(joined(memex_dir, group), service) =~= there) by {
            let g = joined(memex_dir, group);
            assert(g.last() == group[group.len() - 1]);
        }
        law_joined_name(there, file);
        assert((components(memex_dir) + seq![group, service]).push(file) =~= components(memex_dir)
            + seq![group, service, file]);
    } else {
        assert(memex_dir =~= Seq::<char>::empty());
        law_joined_name(both, file);
        assert(components(both).push(file) =~= components(memex_dir) + seq![group, service, file]);
    }
    law_joined_name(Seq::empty(), account);
    assert(joined(Seq::<char>::empty(), account) == account);
    assert(components(account) =~= seq![account]);
}

/// A scope that is empty, absolute, or leads up is refused.
pub proof fn law_bad_scopes(service: Seq<char>, account: Seq<char>)
    ensures
        scoped_fault(service, account) is Some <==> {
            ||| service.len() == 0 || account.len() == 0
            ||| service[0] == '/' || account[0] == '/'
            ||| components(service).contains(seq!['.', '.'])
            ||| components(account).contains(seq!['.', '.'])
        },
{
}

/// A listing keeps archives: `.majestic` files, and `.archive` files that no
/// `.majestic` file stands beside. It goes into every folder but one named
/// `memex`, and passes over READMEs and everything else.
pub proof fn law_listing_steps(stem: Seq<char>, ext: Seq<char>, name: Seq<char>, sibling: bool)
    requires
        stem.len() > 0,
        !ext.contains('.'),
        !same_ascii(ext, "md"@),
    ensures
        list_step(stem + seq!['.'] + ext, EntryKind::File, sibling) == ListStep::Keep <==> {
            ||| same_ascii(ext, "majestic"@)
            ||| same_ascii(ext, "archive"@) && !sibling
        },
        list_step(stem + seq!['.'] + ext, EntryKind::File, sibling) != ListStep::Descend,
        !same_ascii(name, "README"@) && !same_ascii(name, "README.md"@) ==> (list_step(
            name,
            EntryKind::Directory,
            sibling,
        ) == ListStep::Descend <==> name != "memex"@),
        list_step(name, EntryKind::Directory, sibling) != ListStep::Keep,
        list_step(name, EntryKind::Other, sibling) == ListStep::Skip,
        same_ascii(name, "README"@) || same_ascii(name, "README.md"@) ==> list_step(
            name,
            EntryKind::File,
            sibling,
        ) == ListStep::Skip && list_step(name, EntryKind::Directory, sibling) == ListStep::Skip,
{
    law_name_and_extension(stem, ext);
    let full = stem + seq!['.'] + ext;
    reveal_strlit("README");
    reveal_strlit("README.md");
    reveal_strlit("md");
    if same_ascii(full, "README"@) {
        let n = stem.len() as int;
        assert("README"@.len() == 6 && lower("README"@).len() == 6);
        assert(lower(full).len() == full.len());
        assert(lower(full)[n] == '.');
        assert('A' <= "README"@[n] <= 'Z');
        assert(lower("README"@)[n] != '.');
    }
    if same_ascii(full, "README.md"@) {
        let n = stem.len() as int;
        assert(lower(full).len() == full.len());
        assert("README.md"@.len() == 9 && lower("README.md"@).len() == 9);
        assert(full.len() == 9);
        assert(lower(full)[n] == '.');
        assert(lower("README.md"@)[n] == '.');
        assert(n == 6);
        assert(lower(ext) =~= lower("md"@)) by {
            assert forall|i: int| 0 <= i < ext.len() implies lower(ext)[i] == lower("md"@)[i] by {
                assert(lower(full)[n + 1 + i] == lower("README.md"@)[n + 1 + i]);
            }
        }
    }
}

} // verus!
