//! Where to look for a `node` binary when it is not on `PATH`: the order in
//! which the bin directories of nvm, fnm, volta and Homebrew installations
//! are tried.
//!
//! The caller lists the directories (that is I/O) and hands the listings in;
//! this module decides which candidate directories to try and in what order.
//! The caller then tries them in that order and takes the first that holds a
//! `node` file.
use vstd::prelude::*;

use crate::order;
use crate::order::{sort_desc_by_bytes, sort_newest_first};
use crate::version;
use crate::shortcut::starts_with_seq;
use crate::text;
use crate::text::{has_prefix, str_eq, trim_str};

verus! {

/// One candidate `bin` directory, by where it lies.
#[derive(Debug, Clone, Copy, PartialEq, Eq, Structural)]
pub enum NodeBinCandidate {
    /// `<nvm dir>/versions/node/<entry>/bin`, an entry of the alias listing.
    NvmAliasMatch(usize),
    /// `<nvm dir>/versions/node/<entry>/bin`, an entry of the version listing.
    NvmVersion(usize),
    /// `<fnm dir>/node-versions/<entry>/installation/bin`.
    FnmVersion(usize),
    /// `<volta home>/bin`.
    VoltaBin,
    /// `<Homebrew prefix p>/opt/<entry>/bin`.
    BrewOpt(usize, usize),
    /// `<Homebrew prefix p>/bin`.
    BrewBin(usize),
}

/// An entry of a directory: its name as text (lossily decoded) and as the
/// bytes by which paths are ordered.
pub struct DirEntryName {
    pub name: String,
    pub bytes: Vec<u8>,
}

/// What was found under one Homebrew prefix.
pub struct BrewPrefixListing {
    /// The entries of `<prefix>/opt`, when it is a directory that could be read.
    pub opt_entries: Option<Vec<DirEntryName>>,
    /// Whether `<prefix>/bin` is a directory.
    pub bin_is_dir: bool,
}

/// What was found on disk for the search.
pub struct NodeSearchInputs {
    /// Whether the nvm directory is a directory.
    pub nvm_is_dir: bool,
    /// The contents of `<nvm dir>/alias/default`, when it could be read.
    pub nvm_default_alias: Option<String>,
    /// The entry names of `<nvm dir>/versions/node` read for the alias match,
    /// in listing order, when the directory could be read.
    pub nvm_alias_listing: Option<Vec<String>>,
    /// The entry names (bytes) of `<nvm dir>/versions/node` read for the
    /// fallback, when the directory could be read.
    pub nvm_versions: Option<Vec<Vec<u8>>>,
    /// The entry names (bytes) of `<fnm dir>/node-versions`, when it is a
    /// directory that could be read.
    pub fnm_versions: Option<Vec<Vec<u8>>>,
    /// Whether `<volta home>/bin` is a directory.
    pub volta_bin_is_dir: bool,
    /// The Homebrew prefixes, in order (none off macOS).
    pub brew: Vec<BrewPrefixListing>,
}

// ---------------------------------------------------------------------------
// The model
// ---------------------------------------------------------------------------

/// `str::trim_start_matches('v')`.
pub open spec fn trim_leading_v(s: Seq<char>) -> Seq<char>
    decreases s.len(),
{
    if s.len() > 0 && s[0] == 'v' {
        trim_leading_v(s.drop_first())
    } else {
        s
    }
}

/// An installed version directory matches the default alias when its name,
/// with or without the leading `v`s, starts with the alias.
pub open spec fn matches_alias(name: Seq<char>, alias: Seq<char>) -> bool {
    starts_with_seq(trim_leading_v(name), alias) || starts_with_seq(name, alias)
}

/// The positions below `n` whose names match the alias, in order.
pub open spec fn alias_matches(names: Seq<Seq<char>>, alias: Seq<char>, n: int) -> Seq<usize>
    decreases n,
{
    if n <= 0 {
        Seq::<usize>::empty()
    } else {
        let prev = alias_matches(names, alias, n - 1);
        if matches_alias(names[n - 1], alias) {
            prev.push((n - 1) as usize)
        } else {
            prev
        }
    }
}

/// A Homebrew `opt` entry for the unversioned Node.js formula.
pub open spec fn is_unversioned_node(name: Seq<char>) -> bool {
    name == "node"@
}

/// A Homebrew `opt` entry for a versioned Node.js formula, `node@<version>`.
pub open spec fn is_versioned_node(name: Seq<char>) -> bool {
    starts_with_seq(name, "node@"@)
}

/// A Homebrew `opt` entry for Node.js: `node` or `node@<version>`.
pub open spec fn is_node_opt_name(name: Seq<char>) -> bool {
    is_unversioned_node(name) || is_versioned_node(name)
}

/// The positions below `n` of the versioned (or else the unversioned)
/// Node.js `opt` entries, in listing order.
pub open spec fn node_opt_positions(names: Seq<Seq<char>>, versioned: bool, n: int) -> Seq<usize>
    decreases n,
{
    if n <= 0 {
        Seq::<usize>::empty()
    } else {
        let prev = node_opt_positions(names, versioned, n - 1);
        if (if versioned {
            is_versioned_node(names[n - 1])
        } else {
            is_unversioned_node(names[n - 1])
        }) {
            prev.push((n - 1) as usize)
        } else {
            prev
        }
    }
}

pub open spec fn entry_names(entries: Seq<DirEntryName>) -> Seq<Seq<char>> {
    entries.map_values(|e: DirEntryName| e.name@)
}

pub open spec fn entry_bytes(entries: Seq<DirEntryName>) -> Seq<Seq<u8>> {
    entries.map_values(|e: DirEntryName| e.bytes@)
}

/// The Node.js `opt` entries of one prefix in the order they are tried: the
/// unversioned `node` first, then the `node@<version>` entries in descending
/// order of name.
pub open spec fn brew_opt_candidates(p: int, entries: Seq<DirEntryName>) -> Seq<NodeBinCandidate> {
    let names = entry_names(entries);
    let plain = node_opt_positions(names, false, entries.len() as int);
    let versioned = node_opt_positions(names, true, entries.len() as int);
    let keys = versioned.map_values(|j: usize| entry_bytes(entries)[j as int]);
    plain.map_values(|j: usize| NodeBinCandidate::BrewOpt(p as usize, j)) + order::desc_order(
        keys,
    ).map_values(|k: usize| NodeBinCandidate::BrewOpt(p as usize, versioned[k as int]))
}

/// The candidates of Homebrew prefix `p`: its Node.js `opt` entries, then its `bin`.
pub open spec fn brew_prefix_candidates(p: int, listing: BrewPrefixListing) -> Seq<NodeBinCandidate> {
    (match listing.opt_entries {
        Some(entries) => brew_opt_candidates(p, entries@),
        None => Seq::<NodeBinCandidate>::empty(),
    }) + (if listing.bin_is_dir {
        seq![NodeBinCandidate::BrewBin(p as usize)]
    } else {
        Seq::<NodeBinCandidate>::empty()
    })
}

/// The candidates of the first `n` Homebrew prefixes.
pub open spec fn brew_candidates(brew: Seq<BrewPrefixListing>, n: int) -> Seq<NodeBinCandidate>
    decreases n,
{
    if n <= 0 {
        Seq::<NodeBinCandidate>::empty()
    } else {
        brew_candidates(brew, n - 1) + brew_prefix_candidates(n - 1, brew[n - 1])
    }
}

/// nvm: versions matching the default alias (in listing order), then all
/// installed versions, newest first.
pub open spec fn nvm_candidates(inputs: NodeSearchInputs) -> Seq<NodeBinCandidate> {
    if !inputs.nvm_is_dir {
        Seq::<NodeBinCandidate>::empty()
    } else {
        (match (inputs.nvm_default_alias, inputs.nvm_alias_listing) {
            (Some(alias), Some(names)) => alias_matches(
                text::views(names@),
                text::trim_seq(alias@),
                names@.len() as int,
            ).map_values(|i: usize| NodeBinCandidate::NvmAliasMatch(i)),
            _ => Seq::<NodeBinCandidate>::empty(),
        }) + (match inputs.nvm_versions {
            Some(names) => version::newest_first_order(order::byte_views(names@)).map_values(
                |i: usize| NodeBinCandidate::NvmVersion(i),
            ),
            None => Seq::<NodeBinCandidate>::empty(),
        })
    }
}

/// All candidate directories in the order they are tried: nvm, fnm
/// (descending name bytes), volta, then each Homebrew prefix.
pub open spec fn node_candidates_spec(inputs: NodeSearchInputs) -> Seq<NodeBinCandidate> {
    nvm_candidates(inputs) + (match inputs.fnm_versions {
        Some(names) => order::desc_order(order::byte_views(names@)).map_values(
            |i: usize| NodeBinCandidate::FnmVersion(i),
        ),
        None => Seq::<NodeBinCandidate>::empty(),
    }) + (if inputs.volta_bin_is_dir {
        seq![NodeBinCandidate::VoltaBin]
    } else {
        Seq::<NodeBinCandidate>::empty()
    }) + brew_candidates(inputs.brew@, inputs.brew@.len() as int)
}

// ---------------------------------------------------------------------------
// The decisions
// ---------------------------------------------------------------------------

/// `s.trim_start_matches('v')`.
pub fn trim_leading_v_str(s: &str) -> (r: &str)
    ensures
        r@ == trim_leading_v(s@),
{
    let n = s.unicode_len();
    let mut i: usize = 0;
    assert(s@.skip(0) =~= s@);
    while i < n && s.get_char(i) == 'v'
        invariant
            i <= n,
            n == s@.len(),
            trim_leading_v(s@.skip(i as int)) == trim_leading_v(s@),
        decreases n - i,
    {
        assert(s@.skip(i as int).drop_first() =~= s@.skip(i as int + 1));
        i = i + 1;
    }
    s.substring_char(i, n)
}

/// Whether an installed version directory matches the nvm default alias.
pub fn version_matches_alias(name: &str, alias: &str) -> (r: bool)
    ensures
        r == matches_alias(name@, alias@),
{
    let stripped = trim_leading_v_str(name);
    has_prefix(stripped, alias) || has_prefix(name, alias)
}

/// Whether a Homebrew `opt` entry is a Node.js installation.
pub fn is_node_opt_entry(name: &str) -> (r: bool)
    ensures
        r == is_node_opt_name(name@),
{
    str_eq(name, "node") || has_prefix(name, "node@")
}

/// Which kind of listed candidate a position stands for.
#[derive(Clone, Copy)]
enum ListedKind {
    NvmAlias,
    NvmVersion,
    Fnm,
    BrewOptPlain,
    BrewOpt,
}

/// The candidate for position `i` of a listing of the given kind (for
/// Homebrew, position `i` of the Node.js entries `pos` of prefix `p`).
spec fn listed_candidate(kind: ListedKind, p: usize, pos: Seq<usize>, i: usize) -> NodeBinCandidate {
    match kind {
        ListedKind::NvmAlias => NodeBinCandidate::NvmAliasMatch(i),
        ListedKind::NvmVersion => NodeBinCandidate::NvmVersion(i),
        ListedKind::Fnm => NodeBinCandidate::FnmVersion(i),
        ListedKind::BrewOptPlain => NodeBinCandidate::BrewOpt(p, i),
        ListedKind::BrewOpt => NodeBinCandidate::BrewOpt(p, pos[i as int]),
    }
}

/// Append the candidates for the listed positions, in the given order.
fn append_listed(
    out: &mut Vec<NodeBinCandidate>,
    order: &Vec<usize>,
    kind: ListedKind,
    p: usize,
    pos: &Vec<usize>,
)
    requires
        kind == ListedKind::BrewOpt ==> forall|k: int| 0 <= k < order@.len() ==> order@[k] < pos@.len(),
    ensures
        final(out)@ == old(out)@ + order@.map_values(|i: usize| listed_candidate(kind, p, pos@, i)),
{
    let ghost start = out@;
    let ghost target = order@.map_values(|i: usize| listed_candidate(kind, p, pos@, i));
    let n = order.len();
    let mut i: usize = 0;
    while i < n
        invariant
            i <= n,
            n == order@.len(),
            target == order@.map_values(|i: usize| listed_candidate(kind, p, pos@, i)),
            kind == ListedKind::BrewOpt ==> forall|k: int| 0 <= k < order@.len() ==> order@[k] < pos@.len(),
            out@ == start + target.take(i as int),
        decreases n - i,
    {
        let o = order[i];
        let c = match kind {
            ListedKind::NvmAlias => NodeBinCandidate::NvmAliasMatch(o),
            ListedKind::NvmVersion => NodeBinCandidate::NvmVersion(o),
            ListedKind::Fnm => NodeBinCandidate::FnmVersion(o),
            ListedKind::BrewOptPlain => NodeBinCandidate::BrewOpt(p, o),
            ListedKind::BrewOpt => NodeBinCandidate::BrewOpt(p, pos[o]),
        };
        assert(c == target[i as int]);
        out.push(c);
        assert(target.take(i as int + 1) =~= target.take(i as int).push(c));
        i = i + 1;
    }
    assert(target.take(n as int) =~= target);
}

/// The positions of the listing whose names match the alias.
fn alias_positions(names: &Vec<String>, alias: &str) -> (r: Vec<usize>)
    ensures
        r@ == alias_matches(text::views(names@), alias@, names@.len() as int),
{
    let n = names.len();
    let mut r: Vec<usize> = Vec::new();
    let mut i: usize = 0;
    while i < n
        invariant
            i <= n,
            n == names@.len(),
            r@ == alias_matches(text::views(names@), alias@, i as int),
        decreases n - i,
    {
        assert(text::views(names@)[i as int] == names@[i as int]@);
        if version_matches_alias(names[i].as_str(), alias) {
            r.push(i);
        }
        i = i + 1;
    }
    r
}

/// The Node.js `opt` entries of one prefix: the unversioned positions, the
/// order of the versioned ones (descending name) and the versioned positions.
fn brew_opt_order(entries: &Vec<DirEntryName>) -> (r: (Vec<usize>, Vec<usize>, Vec<usize>))
    ensures
        ({
            let names = entry_names(entries@);
            let versioned = node_opt_positions(names, true, entries@.len() as int);
            let keys = versioned.map_values(|j: usize| entry_bytes(entries@)[j as int]);
            &&& r.0@ == node_opt_positions(names, false, entries@.len() as int)
            &&& r.2@ == versioned
            &&& r.1@ == order::desc_order(keys)
            &&& forall|k: int| 0 <= k < r.1@.len() ==> r.1@[k] < versioned.len()
        }),
{
    let n = entries.len();
    let ghost names = entry_names(entries@);
    let mut plain: Vec<usize> = Vec::new();
    let mut pos: Vec<usize> = Vec::new();
    let mut keys: Vec<Vec<u8>> = Vec::new();
    let mut i: usize = 0;
    while i < n
        invariant
            i <= n,
            n == entries@.len(),
            names == entry_names(entries@),
            plain@ == node_opt_positions(names, false, i as int),
            pos@ == node_opt_positions(names, true, i as int),
            forall|k: int| 0 <= k < pos@.len() ==> pos@[k] < i,
            order::byte_views(keys@) == pos@.map_values(|j: usize| entry_bytes(entries@)[j as int]),
        decreases n - i,
    {
        assert(names[i as int] == entries@[i as int].name@);
        let name = entries[i].name.as_str();
        if str_eq(name, "node") {
            plain.push(i);
        }
        if has_prefix(name, "node@") {
            let ghost before = order::byte_views(keys@);
            let ghost before_pos = pos@;
            let k = entries[i].bytes.clone();
            assert(k@ =~= entries@[i as int].bytes@);
            pos.push(i);
            keys.push(k);
            assert(order::byte_views(keys@) =~= before.push(k@));
            assert(pos@.map_values(|j: usize| entry_bytes(entries@)[j as int]) =~= before_pos.map_values(
                |j: usize| entry_bytes(entries@)[j as int],
            ).push(entry_bytes(entries@)[i as int]));
        }
        i = i + 1;
    }
    let order = sort_desc_by_bytes(&keys);
    proof {
        order::lemma_listing_order_in_range(order::byte_views(keys@), false);
        assert forall|k: int| 0 <= k < order@.len() implies order@[k] < pos@.len() by {
            assert(order@[k] == order::listing_order(order::byte_views(keys@), false)[k]);
        }
    }
    (plain, order, pos)
}

/// Decide the candidate `bin` directories to search for `node`, in the
/// order they are tried.
pub fn node_bin_candidates(inputs: &NodeSearchInputs) -> (r: Vec<NodeBinCandidate>)
    ensures
        r@ == node_candidates_spec(*inputs),
{
    let mut out: Vec<NodeBinCandidate> = Vec::new();
    let empty: Vec<usize> = Vec::new();
    // nvm
    if inputs.nvm_is_dir {
        match (&inputs.nvm_default_alias, &inputs.nvm_alias_listing) {
            (Some(alias), Some(names)) => {
                let trimmed = trim_str(alias.as_str());
                let matches = alias_positions(names, trimmed);
                append_listed(&mut out, &matches, ListedKind::NvmAlias, 0, &empty);
            },
            _ => {},
        }
        match &inputs.nvm_versions {
            Some(names) => {
                let order = sort_newest_first(names);
                append_listed(&mut out, &order, ListedKind::NvmVersion, 0, &empty);
            },
            None => {},
        }
    }
    assert(out@ =~= nvm_candidates(*inputs));
    // fnm
    match &inputs.fnm_versions {
        Some(names) => {
            let order = sort_desc_by_bytes(names);
            append_listed(&mut out, &order, ListedKind::Fnm, 0, &empty);
        },
        None => {},
    }
    // volta
    if inputs.volta_bin_is_dir {
        out.push(NodeBinCandidate::VoltaBin);
    }
    let ghost before_brew = out@;
    // Homebrew
    let np = inputs.brew.len();
    let mut p: usize = 0;
    while p < np
        invariant
            p <= np,
            np == inputs.brew@.len(),
            out@ == before_brew + brew_candidates(inputs.brew@, p as int),
        decreases np - p,
    {
        let listing = &inputs.brew[p];
        let ghost mid = out@;
        match &listing.opt_entries {
            Some(entries) => {
                let (plain, order, pos) = brew_opt_order(entries);
                append_listed(&mut out, &plain, ListedKind::BrewOptPlain, p, &empty);
                append_listed(&mut out, &order, ListedKind::BrewOpt, p, &pos);
            },
            None => {},
        }
        if listing.bin_is_dir {
            out.push(NodeBinCandidate::BrewBin(p));
        }
        assert(out@ =~= mid + brew_prefix_candidates(p as int, inputs.brew@[p as int]));
        proof {
            lemma_concat_assoc(
                before_brew,
                brew_candidates(inputs.brew@, p as int),
                brew_prefix_candidates(p as int, inputs.brew@[p as int]),
            );
        }
        p = p + 1;
    }
    assert(node_candidates_spec(*inputs) =~= before_brew + brew_candidates(
        inputs.brew@,
        inputs.brew@.len() as int,
    ));
    out
}

proof fn lemma_concat_assoc(a: Seq<NodeBinCandidate>, b: Seq<NodeBinCandidate>, c: Seq<NodeBinCandidate>)
    ensures
        a + b + c == a + (b + c),
{
    assert(a + b + c =~= a + (b + c));
}

/// The Homebrew prefixes searched for Node.js: `HOMEBREW_PREFIX` alone when
/// it is set, otherwise the Apple Silicon and Intel defaults.
pub fn node_brew_prefixes(env_prefix: Option<String>) -> (r: Vec<String>)
    ensures
        text::views(r@) == (match env_prefix {
            Some(p) => seq![p@],
            None => seq!["/opt/homebrew"@, "/usr/local"@],
        }),
{
    let mut r: Vec<String> = Vec::new();
    match env_prefix {
        Some(p) => {
            r.push(p);
        },
        None => {
            r.push(String::from_str("/opt/homebrew"));
            r.push(String::from_str("/usr/local"));
        },
    }
    assert(text::views(r@) =~= (match env_prefix {
        Some(p) => seq![p@],
        None => seq!["/opt/homebrew"@, "/usr/local"@],
    }));
    r
}

// ---------------------------------------------------------------------------
// Laws: which installations are tried
// ---------------------------------------------------------------------------

proof fn lemma_contains_in_suffix(a: Seq<NodeBinCandidate>, b: Seq<NodeBinCandidate>, x: NodeBinCandidate)
    requires
        b.contains(x),
    ensures
        (a + b).contains(x),
{
    let k = choose|k: int| 0 <= k < b.len() && b[k] == x;
    assert((a + b)[a.len() + k] == x);
}

proof fn lemma_contains_in_prefix(a: Seq<NodeBinCandidate>, b: Seq<NodeBinCandidate>, x: NodeBinCandidate)
    requires
        a.contains(x),
    ensures
        (a + b).contains(x),
{
    let k = choose|k: int| 0 <= k < a.len() && a[k] == x;
    assert((a + b)[k] == x);
}

/// The candidates split into the nvm part and the rest.
proof fn lemma_candidates_shape(inputs: NodeSearchInputs)
    ensures
        node_candidates_spec(inputs) == nvm_candidates(inputs) + ((match inputs.fnm_versions {
            Some(names) => order::desc_order(order::byte_views(names@)).map_values(
                |i: usize| NodeBinCandidate::FnmVersion(i),
            ),
            None => Seq::<NodeBinCandidate>::empty(),
        }) + (if inputs.volta_bin_is_dir {
            seq![NodeBinCandidate::VoltaBin]
        } else {
            Seq::<NodeBinCandidate>::empty()
        }) + brew_candidates(inputs.brew@, inputs.brew@.len() as int)),
{
    let a = nvm_candidates(inputs);
    let b = match inputs.fnm_versions {
        Some(names) => order::desc_order(order::byte_views(names@)).map_values(
            |i: usize| NodeBinCandidate::FnmVersion(i),
        ),
        None => Seq::<NodeBinCandidate>::empty(),
    };
    let c = if inputs.volta_bin_is_dir {
        seq![NodeBinCandidate::VoltaBin]
    } else {
        Seq::<NodeBinCandidate>::empty()
    };
    let d = brew_candidates(inputs.brew@, inputs.brew@.len() as int);
    assert(a + b + c + d =~= a + (b + c + d));
}

/// Every installed fnm version is tried when the fnm version directory could
/// be listed, whatever nvm, volta and Homebrew hold.
pub proof fn law_fnm_versions_tried(inputs: NodeSearchInputs, i: int)
    requires
        inputs.fnm_versions is Some,
        0 <= i < inputs.fnm_versions->0@.len(),
    ensures
        node_candidates_spec(inputs).contains(NodeBinCandidate::FnmVersion(i as usize)),
{
    let names = inputs.fnm_versions->0;
    let keys = order::byte_views(names@);
    assert(names.len() == names@.len());
    order::lemma_listing_order_complete(keys, false, i);
    let ord = order::desc_order(keys);
    let k = choose|k: int| 0 <= k < ord.len() && ord[k] == i as usize;
    let fnm = ord.map_values(|j: usize| NodeBinCandidate::FnmVersion(j));
    assert(fnm[k] == NodeBinCandidate::FnmVersion(i as usize));
    assert(fnm.contains(NodeBinCandidate::FnmVersion(i as usize)));
    let c = if inputs.volta_bin_is_dir {
        seq![NodeBinCandidate::VoltaBin]
    } else {
        Seq::<NodeBinCandidate>::empty()
    };
    let d = brew_candidates(inputs.brew@, inputs.brew@.len() as int);
    lemma_contains_in_prefix(fnm, c, NodeBinCandidate::FnmVersion(i as usize));
    lemma_contains_in_prefix(fnm + c, d, NodeBinCandidate::FnmVersion(i as usize));
    lemma_candidates_shape(inputs);
    lemma_contains_in_suffix(nvm_candidates(inputs), fnm + c + d, NodeBinCandidate::FnmVersion(i as usize));
}

/// Volta's bin directory is tried when it exists, whatever else is installed.
pub proof fn law_volta_tried(inputs: NodeSearchInputs)
    requires
        inputs.volta_bin_is_dir,
    ensures
        node_candidates_spec(inputs).contains(NodeBinCandidate::VoltaBin),
{
    let b = match inputs.fnm_versions {
        Some(names) => order::desc_order(order::byte_views(names@)).map_values(
            |i: usize| NodeBinCandidate::FnmVersion(i),
        ),
        None => Seq::<NodeBinCandidate>::empty(),
    };
    let c = seq![NodeBinCandidate::VoltaBin];
    let d = brew_candidates(inputs.brew@, inputs.brew@.len() as int);
    assert(c[0] == NodeBinCandidate::VoltaBin);
    lemma_contains_in_suffix(b, c, NodeBinCandidate::VoltaBin);
    lemma_contains_in_prefix(b + c, d, NodeBinCandidate::VoltaBin);
    lemma_candidates_shape(inputs);
    lemma_contains_in_suffix(nvm_candidates(inputs), b + c + d, NodeBinCandidate::VoltaBin);
}

proof fn lemma_brew_bin_in_prefix_candidates(brew: Seq<BrewPrefixListing>, n: int, p: int)
    requires
        0 <= p < n <= brew.len(),
        brew.len() <= usize::MAX,
        brew[p].bin_is_dir,
    ensures
        brew_candidates(brew, n).contains(NodeBinCandidate::BrewBin(p as usize)),
    decreases n,
{
    let prev = brew_candidates(brew, n - 1);
    let last = brew_prefix_candidates(n - 1, brew[n - 1]);
    if p == n - 1 {
        let opt = match brew[p].opt_entries {
            Some(entries) => brew_opt_candidates(p, entries@),
            None => Seq::<NodeBinCandidate>::empty(),
        };
        let bin = seq![NodeBinCandidate::BrewBin(p as usize)];
        assert(bin[0] == NodeBinCandidate::BrewBin(p as usize));
        lemma_contains_in_suffix(opt, bin, NodeBinCandidate::BrewBin(p as usize));
        lemma_contains_in_suffix(prev, last, NodeBinCandidate::BrewBin(p as usize));
    } else {
        lemma_brew_bin_in_prefix_candidates(brew, n - 1, p);
        lemma_contains_in_prefix(prev, last, NodeBinCandidate::BrewBin(p as usize));
    }
}

/// The bin directory of every Homebrew prefix that has one is tried, whether
/// or not its `opt` directory could be listed.
pub proof fn law_brew_bin_tried(inputs: NodeSearchInputs, p: int)
    requires
        0 <= p < inputs.brew@.len(),
        inputs.brew@[p].bin_is_dir,
    ensures
        node_candidates_spec(inputs).contains(NodeBinCandidate::BrewBin(p as usize)),
{
    let n = inputs.brew@.len() as int;
    assert(inputs.brew.len() == inputs.brew@.len());
    lemma_brew_bin_in_prefix_candidates(inputs.brew@, n, p);
    let b = match inputs.fnm_versions {
        Some(names) => order::desc_order(order::byte_views(names@)).map_values(
            |i: usize| NodeBinCandidate::FnmVersion(i),
        ),
        None => Seq::<NodeBinCandidate>::empty(),
    };
    let c = if inputs.volta_bin_is_dir {
        seq![NodeBinCandidate::VoltaBin]
    } else {
        Seq::<NodeBinCandidate>::empty()
    };
    let d = brew_candidates(inputs.brew@, n);
    lemma_contains_in_suffix(b + c, d, NodeBinCandidate::BrewBin(p as usize));
    lemma_candidates_shape(inputs);
    lemma_contains_in_suffix(nvm_candidates(inputs), b + c + d, NodeBinCandidate::BrewBin(p as usize));
}

/// Every installed nvm version is tried when the nvm directory exists and its
/// versions could be listed.
pub proof fn law_nvm_versions_tried(inputs: NodeSearchInputs, i: int)
    requires
        inputs.nvm_is_dir,
        inputs.nvm_versions is Some,
        0 <= i < inputs.nvm_versions->0@.len(),
    ensures
        node_candidates_spec(inputs).contains(NodeBinCandidate::NvmVersion(i as usize)),
{
    let names = inputs.nvm_versions->0;
    let keys = order::byte_views(names@);
    assert(names.len() == names@.len());
    order::lemma_listing_order_complete(keys, true, i);
    let ord = version::newest_first_order(keys);
    let k = choose|k: int| 0 <= k < ord.len() && ord[k] == i as usize;
    let nv = ord.map_values(|j: usize| NodeBinCandidate::NvmVersion(j));
    assert(nv[k] == NodeBinCandidate::NvmVersion(i as usize));
    assert(nv.contains(NodeBinCandidate::NvmVersion(i as usize)));
    let alias = match (inputs.nvm_default_alias, inputs.nvm_alias_listing) {
        (Some(alias), Some(names)) => alias_matches(
            text::views(names@),
            text::trim_seq(alias@),
            names@.len() as int,
        ).map_values(|i: usize| NodeBinCandidate::NvmAliasMatch(i)),
        _ => Seq::<NodeBinCandidate>::empty(),
    };
    lemma_contains_in_suffix(alias, nv, NodeBinCandidate::NvmVersion(i as usize));
    assert(nvm_candidates(inputs) == alias + nv);
    lemma_candidates_shape(inputs);
    let whole = node_candidates_spec(inputs);
    let kk = choose|kk: int| 0 <= kk < (alias + nv).len() && (alias + nv)[kk] == NodeBinCandidate::NvmVersion(i as usize);
    assert(whole[kk] == NodeBinCandidate::NvmVersion(i as usize));
}

} // verus!
