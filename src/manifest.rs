use vstd::prelude::*;
use vstd::string::*;

use crate::codec::{
    compose, decode_id, encode_id, is_safe_token, lemma_id_round_trip, first_sep, first_sep_index, get_id, get_name, label_part,
    slug_of,
};
use crate::scrape::{ModFile, ModFiles};
use crate::ModError;

verus! {

/// One entry of the manifest: the main file of a mod and the extra files wanted with it,
/// each as a compound identifier.
#[derive(Debug, Clone)]
pub struct Mod {
    pub main_file: String,
    pub optional_files: Option<Vec<String>>,
    pub misc_files: Option<Vec<String>>,
}

/// The manifest: the game, and the wanted mods keyed by compound identifier, in document
/// order.
#[derive(Debug, Clone)]
pub struct ModsFile {
    pub game: String,
    pub mods: Vec<(String, Mod)>,
}

pub open spec fn tokens_of(files: Option<Vec<String>>) -> Seq<Seq<char>> {
    match files {
        Some(v) => v@.map_values(|s: String| s@),
        None => Seq::empty(),
    }
}

/// The files of an entry in installation order: main, then optional, then miscellaneous.
pub open spec fn entry_tokens(m: Mod) -> Seq<Seq<char>> {
    seq![m.main_file@] + tokens_of(m.optional_files) + tokens_of(m.misc_files)
}

/// The site's slug of the manifest's game: the label of a compound identifier, or the
/// whole value when it has no separator.
pub open spec fn game_slug(game: Seq<char>) -> Seq<char> {
    if first_sep(game) < game.len() {
        label_part(game)
    } else {
        game
    }
}

/// One download to request: the game's slug, the mod id and the file id.
#[derive(Debug, Clone)]
pub struct DownloadRequest {
    pub game: String,
    pub mod_id: u32,
    pub file_id: u32,
}

impl View for DownloadRequest {
    type V = (Seq<char>, u32, u32);

    open spec fn view(&self) -> Self::V {
        (self.game@, self.mod_id, self.file_id)
    }
}

/// The requests for a sequence of file identifiers of one mod, or none if one is malformed.
pub open spec fn file_requests(game: Seq<char>, mod_id: u32, tokens: Seq<Seq<char>>) -> Option<Seq<(Seq<char>, u32, u32)>>
    decreases tokens.len(),
{
    if tokens.len() == 0 {
        Some(Seq::empty())
    } else {
        match (file_requests(game, mod_id, tokens.drop_last()), decode_id(tokens.last())) {
            (Some(rs), Some(f)) => Some(rs.push((game, mod_id, f))),
            _ => None,
        }
    }
}

pub open spec fn entry_requests(game: Seq<char>, key: Seq<char>, m: Mod) -> Option<Seq<(Seq<char>, u32, u32)>> {
    match decode_id(key) {
        Some(id) => file_requests(game, id, entry_tokens(m)),
        None => None,
    }
}

/// The downloads that installing the manifest's entries asks for, in order; none if an
/// identifier is malformed.
pub open spec fn plan_of(game: Seq<char>, mods: Seq<(String, Mod)>) -> Option<Seq<(Seq<char>, u32, u32)>>
    decreases mods.len(),
{
    if mods.len() == 0 {
        Some(Seq::empty())
    } else {
        match (plan_of(game, mods.drop_last()), entry_requests(game, mods.last().0@, mods.last().1)) {
            (Some(a), Some(b)) => Some(a + b),
            _ => None,
        }
    }
}

pub open spec fn requests_view(v: Seq<DownloadRequest>) -> Seq<(Seq<char>, u32, u32)> {
    v.map_values(|r: DownloadRequest| r@)
}

/// The site's slug of the manifest's game.
pub fn game_slug_of(game: &str) -> (r: String)
    ensures
        r@ == game_slug(game@),
{
    if first_sep_index(game) < game.unicode_len() {
        get_name(game)
    } else {
        String::from_str(game)
    }
}

pub proof fn lemma_file_requests_fail(game: Seq<char>, id: u32, ts: Seq<Seq<char>>, k: int)
    requires
        0 <= k <= ts.len(),
        file_requests(game, id, ts.subrange(0, k)) is None,
    ensures
        file_requests(game, id, ts) is None,
    decreases ts.len() - k,
{
    if k < ts.len() {
        assert(ts.subrange(0, k + 1).drop_last() =~= ts.subrange(0, k));
        lemma_file_requests_fail(game, id, ts, k + 1);
    } else {
        assert(ts.subrange(0, k) =~= ts);
    }
}

/// Requests over two runs of identifiers are those of the first followed by those of the
/// second.
pub proof fn lemma_file_requests_concat(game: Seq<char>, id: u32, a: Seq<Seq<char>>, b: Seq<Seq<char>>)
    ensures
        file_requests(game, id, a + b) == match (file_requests(game, id, a), file_requests(game, id, b)) {
            (Some(x), Some(y)) => Some(x + y),
            _ => None::<Seq<(Seq<char>, u32, u32)>>,
        },
    decreases b.len(),
{
    if b.len() == 0 {
        assert(a + b =~= a);
        match file_requests(game, id, a) {
            Some(x) => { assert(x + Seq::<(Seq<char>, u32, u32)>::empty() =~= x); },
            None => {},
        }
    } else {
        lemma_file_requests_concat(game, id, a, b.drop_last());
        assert((a + b).drop_last() =~= a + b.drop_last());
        assert((a + b).last() == b.last());
        match (file_requests(game, id, a), file_requests(game, id, b.drop_last())) {
            (Some(x), Some(y)) => {
                match decode_id(b.last()) {
                    Some(f) => { assert((x + y).push((game, id, f)) =~= x + y.push((game, id, f))); },
                    None => {},
                }
            },
            _ => {},
        }
    }
}

/// Appends the requests for `files` of mod `mod_id` to `out`.
fn push_file_requests(game: &String, mod_id: u32, files: &Vec<String>, out: &mut Vec<DownloadRequest>) -> (r: Result<(), ModError>)
    ensures
        match file_requests(game@, mod_id, files@.map_values(|s: String| s@)) {
            Some(rs) => r is Ok && requests_view(final(out)@) == requests_view(old(out)@) + rs,
            None => r == Err::<(), ModError>(ModError::MalformedIdentifier),
        },
{
    let ghost ts = files@.map_values(|s: String| s@);
    let ghost start = requests_view(out@);
    assert(ts.subrange(0, 0) =~= Seq::<Seq<char>>::empty());
    assert(requests_view(out@) =~= start + Seq::<(Seq<char>, u32, u32)>::empty());
    let mut i: usize = 0;
    while i < files.len()
        invariant
            i <= files@.len(),
            ts == files@.map_values(|s: String| s@),
            ts.len() == files@.len(),
            start == requests_view(old(out)@),
            file_requests(game@, mod_id, ts.subrange(0, i as int)) is Some,
            requests_view(out@) == start + file_requests(game@, mod_id, ts.subrange(0, i as int))->Some_0,
        decreases files@.len() - i,
    {
        let ghost pre = ts.subrange(0, i as int + 1);
        assert(pre.drop_last() =~= ts.subrange(0, i as int));
        assert(pre.last() == files@[i as int]@);
        match get_id(files[i].as_str()) {
            Ok(file_id) => {
                let g = String::from_str(game.as_str());
                let ghost before = out@;
                let req = DownloadRequest { game: g, mod_id, file_id };
                out.push(req);
                assert(decode_id(pre.last()) == Some(file_id));
                assert(file_requests(game@, mod_id, pre)->Some_0
                    == file_requests(game@, mod_id, ts.subrange(0, i as int))->Some_0.push((game@, mod_id, file_id)));
                assert(out@ == before.push(req));
                assert(requests_view(out@) =~= requests_view(before).push(req@));
                assert(requests_view(out@) =~= start + file_requests(game@, mod_id, pre)->Some_0);
            },
            Err(e) => {
                proof { lemma_file_requests_fail(game@, mod_id, ts, i as int + 1); }
                return Err(e);
            },
        }
        i = i + 1;
    }
    assert(ts.subrange(0, i as int) =~= ts);
    Ok(())
}

fn push_optional_requests(game: &String, mod_id: u32, files: &Option<Vec<String>>, out: &mut Vec<DownloadRequest>) -> (r: Result<(), ModError>)
    ensures
        match file_requests(game@, mod_id, tokens_of(*files)) {
            Some(rs) => r is Ok && requests_view(final(out)@) == requests_view(old(out)@) + rs,
            None => r == Err::<(), ModError>(ModError::MalformedIdentifier),
        },
{
    match files {
        Some(v) => push_file_requests(game, mod_id, v, out),
        None => {
            assert(requests_view(out@) =~= requests_view(out@) + Seq::<(Seq<char>, u32, u32)>::empty());
            Ok(())
        },
    }
}

/// Appends the requests for one manifest entry to `out`.
fn push_entry_requests(game: &String, key: &String, m: &Mod, out: &mut Vec<DownloadRequest>) -> (r: Result<(), ModError>)
    ensures
        match entry_requests(game@, key@, *m) {
            Some(rs) => r is Ok && requests_view(final(out)@) == requests_view(old(out)@) + rs,
            None => r == Err::<(), ModError>(ModError::MalformedIdentifier),
        },
{
    let mod_id = get_id(key.as_str())?;
    let ghost game_v = game@;
    let ghost s0 = requests_view(out@);
    let ghost main = seq![m.main_file@];
    let ghost opt = tokens_of(m.optional_files);
    let ghost misc = tokens_of(m.misc_files);
    proof {
        lemma_file_requests_concat(game_v, mod_id, main + opt, misc);
        lemma_file_requests_concat(game_v, mod_id, main, opt);
        assert(seq![m.main_file@].drop_last() =~= Seq::<Seq<char>>::empty());
    }
    match get_id(m.main_file.as_str()) {
        Ok(file_id) => {
            out.push(DownloadRequest { game: String::from_str(game.as_str()), mod_id, file_id });
        },
        Err(e) => {
            return Err(e);
        },
    }
    assert(requests_view(out@) =~= s0 + file_requests(game_v, mod_id, main)->Some_0);
    push_optional_requests(game, mod_id, &m.optional_files, out)?;
    push_optional_requests(game, mod_id, &m.misc_files, out)?;
    proof {
        let a = file_requests(game_v, mod_id, main)->Some_0;
        let b = file_requests(game_v, mod_id, opt)->Some_0;
        let c = file_requests(game_v, mod_id, misc)->Some_0;
        assert(s0 + a + b + c =~= s0 + (a + b + c));
    }
    Ok(())
}

/// The downloads that installing the manifest asks for: for each entry in document order,
/// its main file, then its optional files, then its miscellaneous files, all under the
/// game's slug and the entry's mod id. A malformed identifier anywhere fails the whole plan
/// before anything is fetched.
pub fn install_plan(manifest: &ModsFile) -> (r: Result<Vec<DownloadRequest>, ModError>)
    ensures
        match plan_of(game_slug(manifest.game@), manifest.mods@) {
            Some(p) => r is Ok && requests_view(r->Ok_0@) == p,
            None => r == Err::<Vec<DownloadRequest>, ModError>(ModError::MalformedIdentifier),
        },
{
    let game = game_slug_of(manifest.game.as_str());
    let ghost g = game@;
    let ghost ms = manifest.mods@;
    let mut out: Vec<DownloadRequest> = Vec::new();
    assert(ms.subrange(0, 0) =~= Seq::<(String, Mod)>::empty());
    assert(requests_view(out@) =~= Seq::<(Seq<char>, u32, u32)>::empty());
    let mut i: usize = 0;
    while i < manifest.mods.len()
        invariant
            i <= ms.len(),
            ms == manifest.mods@,
            g == game@,
            g == game_slug(manifest.game@),
            plan_of(g, ms.subrange(0, i as int)) is Some,
            requests_view(out@) == plan_of(g, ms.subrange(0, i as int))->Some_0,
        decreases ms.len() - i,
    {
        let ghost pre = ms.subrange(0, i as int + 1);
        assert(pre.drop_last() =~= ms.subrange(0, i as int));
        assert(pre.last() == ms[i as int]);
        let entry = &manifest.mods[i];
        match push_entry_requests(&game, &entry.0, &entry.1, &mut out) {
            Ok(()) => {},
            Err(e) => {
                proof { lemma_plan_fail(g, ms, i as int + 1); }
                return Err(e);
            },
        }
        i = i + 1;
    }
    assert(ms.subrange(0, i as int) =~= ms);
    Ok(out)
}

pub proof fn lemma_plan_fail(game: Seq<char>, ms: Seq<(String, Mod)>, k: int)
    requires
        0 <= k <= ms.len(),
        plan_of(game, ms.subrange(0, k)) is None,
    ensures
        plan_of(game, ms) is None,
    decreases ms.len() - k,
{
    if k < ms.len() {
        assert(ms.subrange(0, k + 1).drop_last() =~= ms.subrange(0, k));
        lemma_plan_fail(game, ms, k + 1);
    } else {
        assert(ms.subrange(0, k) =~= ms);
    }
}

/// A manifest with one entry, keyed by the compound identifier of `mod_id`, whose main file
/// is the compound identifier of `file_id` and which lists no other files, under a game
/// written without a separator, asks for exactly one download: that game, `mod_id` and
/// `file_id`.
pub proof fn lemma_single_entry_plan(
    game: Seq<char>,
    key: String,
    m: Mod,
    mod_id: u32,
    label: Seq<char>,
    file_id: u32,
    file_label: Seq<char>,
)
    requires
        first_sep(game) == game.len(),
        key@ == compose(mod_id, label),
        m.main_file@ == compose(file_id, file_label),
        m.optional_files is None,
        m.misc_files is None,
    ensures
        plan_of(game_slug(game), seq![(key, m)]) == Some(seq![(game, mod_id, file_id)]),
{
    lemma_id_round_trip(mod_id, label);
    lemma_id_round_trip(file_id, file_label);
    let mods = seq![(key, m)];
    assert(mods.drop_last() =~= Seq::<(String, Mod)>::empty());
    let ts = entry_tokens(m);
    assert(ts =~= seq![m.main_file@]);
    assert(ts.drop_last() =~= Seq::<Seq<char>>::empty());
    assert(ts.last() == m.main_file@);
    assert(decode_id(ts.last()) == Some(file_id));
    assert(file_requests(game, mod_id, ts.drop_last()) == Some(Seq::<(Seq<char>, u32, u32)>::empty()));
    let one = seq![(game, mod_id, file_id)];
    assert(Seq::<(Seq<char>, u32, u32)>::empty().push((game, mod_id, file_id)) =~= one);
    assert(file_requests(game, mod_id, ts) == Some(one));
    assert(game_slug(game) == game);
    assert(decode_id(key@) == Some(mod_id));
    assert(entry_requests(game, mods.last().0@, mods.last().1) == Some(one));
    assert(plan_of(game, mods.drop_last()) == Some(Seq::<(Seq<char>, u32, u32)>::empty()));
    assert(Seq::<(Seq<char>, u32, u32)>::empty() + one =~= one);
}

/// A new manifest entry, its files already encoded as compound identifiers.
#[derive(Debug, Clone)]
pub struct ModEntry {
    pub main_file: String,
    pub optional_files: Vec<String>,
    pub misc_files: Vec<String>,
}

pub open spec fn strings_view(v: Seq<String>) -> Seq<Seq<char>> {
    v.map_values(|s: String| s@)
}

impl View for ModEntry {
    type V = (Seq<char>, Seq<Seq<char>>, Seq<Seq<char>>);

    open spec fn view(&self) -> Self::V {
        (self.main_file@, strings_view(self.optional_files@), strings_view(self.misc_files@))
    }
}

/// The compound identifier under which a remote file is written: its id and its slugged
/// display name.
pub open spec fn file_token(f: ModFile) -> Seq<char> {
    compose(f.id, slug_of(f.name@))
}

pub open spec fn picks_valid(picks: Seq<usize>, n: int) -> bool {
    forall|i: int| 0 <= i < picks.len() ==> (#[trigger] picks[i] as int) < n
}

pub open spec fn picked_tokens(files: Seq<ModFile>, picks: Seq<usize>) -> Seq<Seq<char>> {
    picks.map_values(|p: usize| file_token(files[p as int]))
}

/// Whether a tier of files is offered for choice at all: an empty tier gets no prompt.
pub fn needs_prompt(files: &Vec<ModFile>) -> (r: bool)
    ensures
        r == (files@.len() > 0),
{
    files.len() > 0
}

pub open spec fn all_safe(ts: Seq<Seq<char>>) -> bool {
    forall|i: int| 0 <= i < ts.len() ==> is_safe_token(#[trigger] ts[i])
}

/// The compound identifier of a remote file: path-safe, and unchanged when encoded again
/// with its own label.
pub fn encode_file(f: &ModFile) -> (r: String)
    ensures
        r@ == file_token(*f),
        is_safe_token(r@),
        compose(f.id, slug_of(label_part(r@))) == r@,
{
    encode_id(f.id, f.name.as_str())
}

/// The identifiers of the chosen files, in the order chosen; a choice outside the list
/// cancels the selection.
pub fn encode_picks(files: &Vec<ModFile>, picks: &Vec<usize>) -> (r: Result<Vec<String>, ModError>)
    ensures
        picks_valid(picks@, files@.len() as int) ==> r is Ok && strings_view(r->Ok_0@) == picked_tokens(files@, picks@),
        r is Ok ==> all_safe(strings_view(r->Ok_0@)),
        !picks_valid(picks@, files@.len() as int) ==> r == Err::<Vec<String>, ModError>(ModError::SelectionCancelled),
{
    let mut out: Vec<String> = Vec::new();
    let mut i: usize = 0;
    while i < picks.len()
        invariant
            i <= picks@.len(),
            picks_valid(picks@.subrange(0, i as int), files@.len() as int),
            strings_view(out@) == picked_tokens(files@, picks@.subrange(0, i as int)),
            all_safe(strings_view(out@)),
        decreases picks@.len() - i,
    {
        let p = picks[i];
        if p >= files.len() {
            assert(!((picks@[i as int] as int) < files@.len()));
            return Err(ModError::SelectionCancelled);
        }
        let t = encode_file(&files[p]);
        let ghost before = out@;
        out.push(t);
        assert(strings_view(out@) =~= strings_view(before).push(t@));
        assert(picks@.subrange(0, i as int + 1) =~= picks@.subrange(0, i as int).push(p));
        assert(picked_tokens(files@, picks@.subrange(0, i as int + 1)) =~= picked_tokens(files@, picks@.subrange(0, i as int)).push(file_token(files@[p as int])));
        i = i + 1;
    }
    assert(picks@.subrange(0, i as int) =~= picks@);
    Ok(out)
}

/// The entry that the operator's choices make: one main file by index, and any number of
/// optional and miscellaneous files. A choice outside its list cancels the selection.
pub fn choose_entry(files: &ModFiles, main_pick: usize, optional_picks: &Vec<usize>, misc_picks: &Vec<usize>) -> (r: Result<ModEntry, ModError>)
    ensures
        ({
            let ok = main_pick < files.main_files@.len()
                && picks_valid(optional_picks@, files.optional_files@.len() as int)
                && picks_valid(misc_picks@, files.misc_files@.len() as int);
            &&& ok ==> r is Ok && r->Ok_0@ == (
                file_token(files.main_files@[main_pick as int]),
                picked_tokens(files.optional_files@, optional_picks@),
                picked_tokens(files.misc_files@, misc_picks@),
            )
            &&& !ok ==> r == Err::<ModEntry, ModError>(ModError::SelectionCancelled)
            &&& r is Ok ==> is_safe_token(r->Ok_0@.0) && all_safe(r->Ok_0@.1) && all_safe(r->Ok_0@.2)
        }),
{
    if main_pick >= files.main_files.len() {
        return Err(ModError::SelectionCancelled);
    }
    let main_file = encode_file(&files.main_files[main_pick]);
    let optional_files = encode_picks(&files.optional_files, optional_picks)?;
    let misc_files = encode_picks(&files.misc_files, misc_picks)?;
    Ok(ModEntry { main_file, optional_files, misc_files })
}

} // verus!
