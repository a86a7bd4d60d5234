//! Manifest location: the conventional file name, hidden-entry filtering,
//! and the selection rule of the fallback scan over the working
//! directory's immediate entries.

use vstd::prelude::*;

verus! {

/// The conventional manifest file name.
pub open spec fn manifest_name() -> Seq<char> {
    "composer.json"@
}

/// The conventional manifest file name, for the caller's direct read.
pub fn manifest_file_name() -> (r: String)
    ensures
        r@ == manifest_name(),
{
    String::from_str("composer.json")
}

/// Whether a directory entry is hidden: its name begins with a dot.
pub open spec fn spec_hidden(name: Seq<char>) -> bool {
    name.len() > 0 && name[0] == '.'
}

/// Decides `spec_hidden`.
pub fn is_hidden_name(name: &str) -> (r: bool)
    ensures
        r == spec_hidden(name@),
{
    let n = name.unicode_len();
    if n == 0 {
        false
    } else {
        name.get_char(0) == '.'
    }
}

/// The path of the manifest immediately inside the entry named `dir`.
pub open spec fn spec_entry_path(dir: Seq<char>) -> Seq<char> {
    dir + "/"@ + manifest_name()
}

/// Builds `dir/composer.json`.
pub fn manifest_path_in(dir: &str) -> (r: String)
    ensures
        r@ == spec_entry_path(dir@),
{
    let mut s = String::from_str(dir);
    s.append("/");
    s.append("composer.json");
    s
}

/// The path the fallback scan selects: for the first entry that is not
/// hidden and holds the manifest, the manifest's path inside it; `None`
/// when no entry qualifies.  `entries` are the names of the immediate
/// directory entries and `has[i]` whether `entries[i]/composer.json` is a
/// file.
pub open spec fn spec_select(entries: Seq<Seq<char>>, has: Seq<bool>) -> Option<Seq<char>>
    decreases entries.len(),
{
    if entries.len() == 0 || entries.len() != has.len() {
        None
    } else if !spec_hidden(entries[0]) && has[0] {
        Some(spec_entry_path(entries[0]))
    } else {
        spec_select(entries.drop_first(), has.drop_first())
    }
}

/// Selects the manifest path among the scanned entries, or `None` when no
/// entry that is not hidden holds one.
pub fn select_manifest_path(entries: &Vec<String>, has_manifest: &Vec<bool>) -> (r: Option<
    String,
>)
    requires
        entries@.len() == has_manifest@.len(),
    ensures
        match r {
            Some(p) => spec_select(
                entries@.map_values(|e: String| e@),
                has_manifest@,
            ) == Some(p@),
            None => spec_select(entries@.map_values(|e: String| e@), has_manifest@) is None,
        },
{
    let ghost names = entries@.map_values(|e: String| e@);
    let n = entries.len();
    let mut i: usize = 0;
    proof {
        assert(names.skip(0) =~= names);
        assert(has_manifest@.skip(0) =~= has_manifest@);
    }
    while i < n
        invariant
            i <= n,
            n == entries@.len(),
            n == has_manifest@.len(),
            names == entries@.map_values(|e: String| e@),
            spec_select(names, has_manifest@) == spec_select(
                names.skip(i as int),
                has_manifest@.skip(i as int),
            ),
        decreases n - i,
    {
        let entry = &entries[i];
        proof {
            assert(names.skip(i as int)[0] == names[i as int]);
            assert(has_manifest@.skip(i as int)[0] == has_manifest@[i as int]);
        }
        if !is_hidden_name(entry.as_str()) && has_manifest[i] {
            let p = manifest_path_in(entry.as_str());
            return Some(p);
        }
        proof {
            assert(names.skip(i as int).drop_first() =~= names.skip(i as int + 1));
            assert(has_manifest@.skip(i as int).drop_first() =~= has_manifest@.skip(
                i as int + 1,
            ));
        }
        i = i + 1;
    }
    proof {
        assert(names.skip(n as int) =~= Seq::<Seq<char>>::empty());
    }
    None
}

} // verus!
