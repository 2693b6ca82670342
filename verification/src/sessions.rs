//! Session ids, the places on disk that hold data of sessions, and what is found there.
use crate::clock::{later, latest};
use crate::model::{SessionPart, SessionPartView};
use crate::text::{
    begins_with, chars_of, inner, inner_text, law_inner_stands_between, same_text,
};
use vstd::prelude::*;
use vstd::string::*;

verus! {

/// What the id of a session begins with.
pub const ID_PREFIX: &'static str = "sess_";

/// The characters that may follow the prefix of a session id.
pub open spec fn is_id_char(c: char) -> bool {
    ||| 'a' <= c <= 'z'
    ||| 'A' <= c <= 'Z'
    ||| '0' <= c <= '9'
    ||| c == '-'
    ||| c == '_'
}

/// Whether a text is a well-formed session id: the prefix, and at least one more character, all of
/// them ASCII letters, digits, `-` or `_`.
pub open spec fn is_sess_id(id: Seq<char>) -> bool {
    &&& ID_PREFIX@.is_prefix_of(id)
    &&& id.len() > 5
    &&& forall|k: int| 5 <= k < id.len() ==> is_id_char(#[trigger] id[k])
}

/// Whether a text is a well-formed session id.
pub fn valid_sess_id(id: &str) -> (r: bool)
    ensures
        r == is_sess_id(id@),
{
    if !begins_with(id, ID_PREFIX) {
        return false;
    }
    let cs = chars_of(id);
    if cs.len() <= 5 {
        return false;
    }
    let mut i: usize = 5;
    while i < cs.len()
        invariant
            cs@ == id@,
            5 <= i <= cs.len(),
            forall|k: int| 5 <= k < i ==> is_id_char(#[trigger] id@[k]),
        decreases cs.len() - i,
    {
        let c = cs[i];
        let fine = ('a' <= c && c <= 'z') || ('A' <= c && c <= 'Z') || ('0' <= c && c <= '9') || c
            == '-' || c == '_';
        if !fine {
            assert(!is_id_char(id@[i as int]));
            return false;
        }
        i += 1;
    }
    true
}

/// A well-formed session id is the name of one thing in a directory: it is not empty, it is no name
/// for the directory itself or the one above, and it holds no separator of paths.
pub proof fn law_session_ids_are_plain_names(id: Seq<char>)
    requires
        is_sess_id(id),
    ensures
        id.len() > 0,
        id != "."@,
        id != ".."@,
        !id.contains('/'),
        !id.contains('\\'),
        !id.contains(':'),
        !id.contains('.'),
{
    reveal_strlit("sess_");
    reveal_strlit(".");
    reveal_strlit("..");
    assert forall|k: int| 0 <= k < id.len() implies #[trigger] id[k] != '/' && id[k] != '\\' && id[k]
        != ':' && id[k] != '.' by {
        if k < 5 {
            assert(id[k] == ID_PREFIX@[k]);
        } else {
            assert(is_id_char(id[k]));
        }
    }
}

/// The locations that hold one directory for each session: key, and place relative to ZCode's data
/// directory.
pub open spec fn session_dir_list() -> Seq<(Seq<char>, Seq<char>)> {
    seq![
        ("agents"@, "cli/agents"@),
        ("artifacts"@, "cli/artifacts"@),
        ("exec"@, "cli/exec"@),
        ("image-cache"@, "cli/image-cache"@),
    ]
}

/// The locations that hold one directory for each session.
pub fn session_dir_locs() -> (r: Vec<(&'static str, &'static str)>)
    ensures
        r.deep_view() == session_dir_list(),
{
    let r: Vec<(&'static str, &'static str)> = vec![
        ("agents", "cli/agents"),
        ("artifacts", "cli/artifacts"),
        ("exec", "cli/exec"),
        ("image-cache", "cli/image-cache"),
    ];
    assert(r.deep_view() =~= session_dir_list());
    r
}

/// The name of a location for display.
pub open spec fn loc_label_text(loc: Seq<char>) -> Seq<char> {
    if loc == "agents"@ {
        "转录"@
    } else if loc == "artifacts"@ {
        "产物"@
    } else if loc == "exec"@ {
        "Shell快照"@
    } else if loc == "image-cache"@ {
        "图片缓存"@
    } else if loc == "rollout"@ {
        "模型IO"@
    } else {
        loc
    }
}

/// The name of a location for display; the key itself where the location is not known.
pub fn loc_label(loc: &str) -> (r: String)
    ensures
        r@ == loc_label_text(loc@),
{
    if same_text(loc, "agents") {
        "转录".to_owned()
    } else if same_text(loc, "artifacts") {
        "产物".to_owned()
    } else if same_text(loc, "exec") {
        "Shell快照".to_owned()
    } else if same_text(loc, "image-cache") {
        "图片缓存".to_owned()
    } else if same_text(loc, "rollout") {
        "模型IO".to_owned()
    } else {
        loc.to_owned()
    }
}

/// Something found in a location, with what is below it where it is the directory of a session.
#[derive(Debug)]
pub struct FoundDir {
    pub name: String,
    pub is_dir: bool,
    pub size: u64,
    pub mtime: u128,
}

/// What a `FoundDir` holds.
#[verifier::ext_equal]
pub struct FoundDirView {
    pub name: Seq<char>,
    pub is_dir: bool,
    pub size: u64,
    pub mtime: u128,
}

impl DeepView for FoundDir {
    type V = FoundDirView;

    open spec fn deep_view(&self) -> FoundDirView {
        FoundDirView {
            name: self.name@,
            is_dir: self.is_dir,
            size: self.size,
            mtime: self.mtime,
        }
    }
}

/// What a location lists; nothing, where it cannot be listed.
#[derive(Debug)]
pub struct DirListing {
    pub loc: String,
    pub found: Vec<FoundDir>,
}

/// What a `DirListing` holds.
#[verifier::ext_equal]
pub struct DirListingView {
    pub loc: Seq<char>,
    pub found: Seq<FoundDirView>,
}

impl DeepView for DirListing {
    type V = DirListingView;

    open spec fn deep_view(&self) -> DirListingView {
        DirListingView { loc: self.loc@, found: self.found.deep_view() }
    }
}

/// Something found in the directory of rollout files.
#[derive(Debug)]
pub struct FoundFile {
    pub name: String,
    pub size: u64,
    pub mtime: u128,
}

/// What a `FoundFile` holds.
#[verifier::ext_equal]
pub struct FoundFileView {
    pub name: Seq<char>,
    pub size: u64,
    pub mtime: u128,
}

impl DeepView for FoundFile {
    type V = FoundFileView;

    open spec fn deep_view(&self) -> FoundFileView {
        FoundFileView { name: self.name@, size: self.size, mtime: self.mtime }
    }
}

/// What the disk holds of one session.
#[derive(Debug)]
pub struct FsSession {
    pub id: String,
    pub parts: Vec<SessionPart>,
    pub size: u64,
    pub mtime: u128,
}

/// What an `FsSession` holds.
#[verifier::ext_equal]
pub struct FsSessionView {
    pub id: Seq<char>,
    pub parts: Seq<SessionPartView>,
    pub size: nat,
    pub mtime: u128,
}

impl DeepView for FsSession {
    type V = FsSessionView;

    open spec fn deep_view(&self) -> FsSessionView {
        FsSessionView {
            id: self.id@,
            parts: self.parts.deep_view(),
            size: self.size as nat,
            mtime: self.mtime,
        }
    }
}

/// Whether something found in a location is the directory of a session.
pub open spec fn is_session_dir(name: Seq<char>, is_dir: bool) -> bool {
    ID_PREFIX@.is_prefix_of(name) && is_dir
}

/// Whether something found in a location is the directory of a session.
pub fn session_dir(name: &str, is_dir: bool) -> (r: bool)
    ensures
        r == is_session_dir(name@, is_dir),
{
    begins_with(name, ID_PREFIX) && is_dir
}

/// The id of the session that a rollout file belongs to, from the file's name.
pub open spec fn rollout_id_text(name: Seq<char>) -> Option<Seq<char>> {
    match inner_text(name, "model-io-"@, ".jsonl"@) {
        Some(id) => if ID_PREFIX@.is_prefix_of(id) {
            Some(id)
        } else {
            None
        },
        None => None,
    }
}

/// The id of the session that a rollout file belongs to, from the file's name; `None` where it is not
/// the rollout file of a session.
pub fn rollout_id(name: &str) -> (r: Option<String>)
    ensures
        r.deep_view() == rollout_id_text(name@),
{
    match inner(name, "model-io-", ".jsonl") {
        Some(id) => if begins_with(id.as_str(), ID_PREFIX) {
            Some(id)
        } else {
            None
        },
        None => None,
    }
}

/// One piece of data on disk, and the session that it belongs to.
#[verifier::ext_equal]
pub struct Contribution {
    pub id: Seq<char>,
    pub part: SessionPartView,
    pub mtime: u128,
}

/// The session directories that a location lists.
pub open spec fn dir_contributions(loc: Seq<char>, found: Seq<FoundDirView>) -> Seq<Contribution>
    decreases found.len(),
{
    if found.len() == 0 {
        Seq::empty()
    } else {
        let rest = dir_contributions(loc, found.drop_last());
        let f = found.last();
        if is_session_dir(f.name, f.is_dir) {
            rest.push(
                Contribution {
                    id: f.name,
                    part: SessionPartView { loc, label: loc_label_text(loc), size: f.size },
                    mtime: f.mtime,
                },
            )
        } else {
            rest
        }
    }
}

/// The session directories that all locations list.
pub open spec fn listed_contributions(listings: Seq<DirListingView>) -> Seq<Contribution>
    decreases listings.len(),
{
    if listings.len() == 0 {
        Seq::empty()
    } else {
        listed_contributions(listings.drop_last()) + dir_contributions(
            listings.last().loc,
            listings.last().found,
        )
    }
}

/// The rollout files of sessions.
pub open spec fn rollout_contributions(files: Seq<FoundFileView>) -> Seq<Contribution>
    decreases files.len(),
{
    if files.len() == 0 {
        Seq::empty()
    } else {
        let rest = rollout_contributions(files.drop_last());
        let f = files.last();
        match rollout_id_text(f.name) {
            Some(id) => rest.push(
                Contribution {
                    id,
                    part: SessionPartView {
                        loc: "rollout"@,
                        label: "模型IO"@,
                        size: f.size,
                    },
                    mtime: f.mtime,
                },
            ),
            None => rest,
        }
    }
}

/// Everything that the disk holds of sessions, in the order in which it is found.
pub open spec fn contributions(
    listings: Seq<DirListingView>,
    rollout: Seq<FoundFileView>,
) -> Seq<Contribution> {
    listed_contributions(listings) + rollout_contributions(rollout)
}

/// What belongs to one session.
pub open spec fn of_session(all: Seq<Contribution>, id: Seq<char>) -> Seq<Contribution> {
    all.filter(|c: Contribution| c.id == id)
}

/// The bytes in some pieces of data.
pub open spec fn bytes_in(all: Seq<Contribution>) -> nat
    decreases all.len(),
{
    if all.len() == 0 {
        0
    } else {
        bytes_in(all.drop_last()) + all.last().part.size as nat
    }
}

/// The latest time in some pieces of data; 0 where there are none.
pub open spec fn latest_in(all: Seq<Contribution>) -> u128
    decreases all.len(),
{
    if all.len() == 0 {
        0
    } else {
        later(latest_in(all.drop_last()), all.last().mtime)
    }
}

/// What the disk holds of one session.
pub open spec fn fs_session(all: Seq<Contribution>, id: Seq<char>) -> FsSessionView {
    let own = of_session(all, id);
    FsSessionView {
        id,
        parts: own.map_values(|c: Contribution| c.part),
        size: bytes_in(own),
        mtime: latest_in(own),
    }
}

/// Whether something on disk belongs to a session.
pub open spec fn on_disk(all: Seq<Contribution>, id: Seq<char>) -> bool {
    exists|k: int| 0 <= k < all.len() && (#[trigger] all[k]).id == id
}

/// Whether some sessions have an id in their midst.
pub open spec fn among(sessions: Seq<FsSessionView>, id: Seq<char>) -> bool {
    exists|k: int| 0 <= k < sessions.len() && (#[trigger] sessions[k]).id == id
}

/// Whether no two of some sessions share an id.
pub open spec fn ids_differ(sessions: Seq<FsSessionView>) -> bool {
    forall|k: int, l: int|
        0 <= k < l < sessions.len() ==> (#[trigger] sessions[k]).id != (#[trigger] sessions[l]).id
}

/// Whether `sessions` is what is on disk, session by session: each that is on disk, once, with all
/// that belongs to it. The order of the sessions is left open.
pub open spec fn by_session(all: Seq<Contribution>, sessions: Seq<FsSessionView>) -> bool {
    &&& ids_differ(sessions)
    &&& forall|id: Seq<char>| #[trigger] among(sessions, id) == on_disk(all, id)
    &&& forall|k: int|
        0 <= k < sessions.len() ==> #[trigger] sessions[k] == fs_session(all, sessions[k].id)
}

/// Whether the bytes of each session can be counted in 64 bits.
pub open spec fn countable(all: Seq<Contribution>) -> bool {
    forall|id: Seq<char>| bytes_in(#[trigger] of_session(all, id)) <= u64::MAX
}

proof fn lemma_of_session_push(all: Seq<Contribution>, c: Contribution, id: Seq<char>)
    ensures
        of_session(all.push(c), id) == if c.id == id {
            of_session(all, id).push(c)
        } else {
            of_session(all, id)
        },
        on_disk(all.push(c), id) == (on_disk(all, id) || c.id == id),
{
    all.lemma_filter_push(c, |x: Contribution| x.id == id);
    if on_disk(all, id) {
        let k = choose|k: int| 0 <= k < all.len() && (#[trigger] all[k]).id == id;
        assert(all.push(c)[k].id == id);
    }
    if c.id == id {
        assert(all.push(c)[all.len() as int].id == id);
    }
    if on_disk(all.push(c), id) && c.id != id {
        let k = choose|k: int| 0 <= k < all.push(c).len() && (#[trigger] all.push(c)[k]).id == id;
        assert(all[k].id == id);
    }
}

proof fn lemma_fs_session_push(all: Seq<Contribution>, c: Contribution, id: Seq<char>)
    ensures
        c.id != id ==> fs_session(all.push(c), id) == fs_session(all, id),
        c.id == id ==> fs_session(all.push(c), id) == (FsSessionView {
            id,
            parts: fs_session(all, id).parts.push(c.part),
            size: fs_session(all, id).size + c.part.size as nat,
            mtime: later(fs_session(all, id).mtime, c.mtime),
        }),
{
    lemma_of_session_push(all, c, id);
    if c.id == id {
        let own = of_session(all, id);
        assert(own.push(c).drop_last() =~= own);
        assert(own.push(c).map_values(|c: Contribution| c.part) =~= own.map_values(
            |c: Contribution| c.part,
        ).push(c.part));
    }
}

/// Of a session that is not on disk, nothing is found there.
pub proof fn lemma_absent(all: Seq<Contribution>, id: Seq<char>)
    requires
        !on_disk(all, id),
    ensures
        of_session(all, id) == Seq::<Contribution>::empty(),
        fs_session(all, id) == (FsSessionView { id, parts: Seq::empty(), size: 0, mtime: 0 }),
    decreases all.len(),
{
    if all.len() > 0 {
        let fewer = all.drop_last();
        assert(fewer.push(all.last()) =~= all);
        lemma_of_session_push(fewer, all.last(), id);
        lemma_absent(fewer, id);
    }
    let own = of_session(all, id);
    assert(own =~= Seq::<Contribution>::empty());
    assert(own.map_values(|c: Contribution| c.part) =~= Seq::<SessionPartView>::empty());
}

/// Of a session that is on disk, something is found there.
pub proof fn lemma_present(all: Seq<Contribution>, id: Seq<char>)
    requires
        on_disk(all, id),
    ensures
        of_session(all, id).len() > 0,
        fs_session(all, id).parts.len() > 0,
{
    broadcast use vstd::seq_lib::group_filter_ensures;

    let at = choose|at: int| 0 <= at < all.len() && (#[trigger] all[at]).id == id;
    assert(of_session(all, id).contains(all[at]));
}

/// Adds one piece of data to the sessions found so far. Fails where the bytes of its session cannot
/// be counted in 64 bits.
fn absorb(
    sessions: &mut Vec<FsSession>,
    id: &String,
    part: SessionPart,
    mtime: u128,
    all: Ghost<Seq<Contribution>>,
) -> (r: bool)
    requires
        by_session(all@, old(sessions).deep_view()),
    ensures
        ({
            let c = Contribution { id: id@, part: part.deep_view(), mtime };
            let more = all@.push(c);
            if r {
                by_session(more, final(sessions).deep_view()) && bytes_in(of_session(more, id@))
                    <= u64::MAX
            } else {
                bytes_in(of_session(more, id@)) > u64::MAX
            }
        }),
{
    let ghost before = sessions.deep_view();
    let ghost c = Contribution { id: id@, part: part.deep_view(), mtime };
    let ghost more = all@.push(c);
    proof {
        assert forall|x: Seq<char>| #[trigger] on_disk(more, x) == (on_disk(all@, x) || c.id == x) by {
            lemma_of_session_push(all@, c, x);
        }
        lemma_of_session_push(all@, c, id@);
        assert(of_session(all@, id@).push(c).drop_last() =~= of_session(all@, id@));
    }
    let mut i: usize = 0;
    while i < sessions.len()
        invariant
            i <= sessions.len(),
            sessions.deep_view() == before,
            forall|k: int| 0 <= k < i ==> (#[trigger] before[k]).id != id@,
        ensures
            i < before.len() ==> before[i as int].id == id@,
        decreases sessions.len() - i,
    {
        assert(before[i as int] == sessions@[i as int].deep_view());
        if sessions[i].id == *id {
            break;
        }
        i += 1;
    }
    if i < sessions.len() {
        assert(before[i as int] == sessions@[i as int].deep_view());
        let size: u64 = match sessions[i].size.checked_add(part.size) {
            Some(size) => size,
            None => {
                return false;
            },
        };
        let ghost old_vec = sessions@;
        let mut s = sessions.remove(i);
        let ghost old_parts = s.parts.deep_view();
        s.parts.push(part);
        assert(s.parts.deep_view() =~= old_parts.push(part.deep_view()));
        s.size = size;
        s.mtime = latest(s.mtime, mtime);
        let ghost new_session = s.deep_view();
        sessions.insert(i, s);
        proof {
            let after = sessions.deep_view();
            assert(after =~= before.update(i as int, new_session));
            lemma_fs_session_push(all@, c, id@);
            assert(new_session == fs_session(more, id@));
            assert forall|k: int| 0 <= k < after.len() implies #[trigger] after[k] == fs_session(
                more,
                after[k].id,
            ) by {
                if k != i {
                    assert(after[k] == before[k]);
                    assert(before[k].id != before[i as int].id);
                    lemma_fs_session_push(all@, c, after[k].id);
                }
            }
            assert forall|x: Seq<char>| #[trigger] among(after, x) == on_disk(more, x) by {
                assert(among(before, x) == on_disk(all@, x));
                if among(before, x) {
                    let k = choose|k: int| 0 <= k < before.len() && (#[trigger] before[k]).id == x;
                    assert(after[k].id == x);
                }
                if among(after, x) {
                    let k = choose|k: int| 0 <= k < after.len() && (#[trigger] after[k]).id == x;
                    assert(before[k].id == x);
                }
                if c.id == x {
                    assert(after[i as int].id == x);
                }
            }
        }
    } else {
        let size: u64 = part.size;
        let mut parts: Vec<SessionPart> = Vec::new();
        parts.push(part);
        let s = FsSession { id: id.clone(), parts, size, mtime };
        assert(s.deep_view().parts =~= seq![c.part]);
        let ghost new_session = s.deep_view();
        sessions.push(s);
        proof {
            let after = sessions.deep_view();
            assert(after =~= before.push(new_session));
            assert(!among(before, id@));
            assert(!on_disk(all@, id@));
            lemma_absent(all@, id@);
            lemma_fs_session_push(all@, c, id@);
            assert(Seq::<SessionPartView>::empty().push(c.part) =~= seq![c.part]);
            assert(new_session == fs_session(more, id@));
            assert forall|k: int| 0 <= k < after.len() implies #[trigger] after[k] == fs_session(
                more,
                after[k].id,
            ) by {
                if k < before.len() {
                    assert(after[k] == before[k]);
                    lemma_fs_session_push(all@, c, after[k].id);
                }
            }
            assert forall|x: Seq<char>| #[trigger] among(after, x) == on_disk(more, x) by {
                assert(among(before, x) == on_disk(all@, x));
                if among(before, x) {
                    let k = choose|k: int| 0 <= k < before.len() && (#[trigger] before[k]).id == x;
                    assert(after[k].id == x);
                }
                if among(after, x) {
                    let k = choose|k: int| 0 <= k < after.len() && (#[trigger] after[k]).id == x;
                    if k < before.len() {
                        assert(before[k].id == x);
                    }
                }
                if c.id == x {
                    assert(after[before.len() as int].id == x);
                }
            }
        }
    }
    true
}

proof fn lemma_bytes_grow(some: Seq<Contribution>, more: Seq<Contribution>, id: Seq<char>)
    ensures
        bytes_in(of_session(some, id)) <= bytes_in(of_session(some + more, id)),
    decreases more.len(),
{
    if more.len() > 0 {
        lemma_bytes_grow(some, more.drop_last(), id);
        assert((some + more.drop_last()).push(more.last()) =~= some + more);
        lemma_of_session_push(some + more.drop_last(), more.last(), id);
        let own = of_session(some + more.drop_last(), id);
        assert(own.push(more.last()).drop_last() =~= own);
    } else {
        assert(some + more =~= some);
    }
}

proof fn lemma_uncountable(
    some: Seq<Contribution>,
    all: Seq<Contribution>,
    rest: Seq<Contribution>,
    id: Seq<char>,
)
    requires
        bytes_in(of_session(some, id)) > u64::MAX,
        all == some + rest,
    ensures
        !countable(all),
{
    lemma_bytes_grow(some, rest, id);
    assert(bytes_in(of_session(all, id)) > u64::MAX);
}

proof fn lemma_dir_contributions_prefix(loc: Seq<char>, found: Seq<FoundDirView>, n: int)
    requires
        0 <= n <= found.len(),
    ensures
        dir_contributions(loc, found.take(n)).is_prefix_of(dir_contributions(loc, found)),
    decreases found.len(),
{
    if n < found.len() {
        assert(found.drop_last().take(n) =~= found.take(n));
        lemma_dir_contributions_prefix(loc, found.drop_last(), n);
    } else {
        assert(found.take(n) =~= found);
    }
}

proof fn lemma_listed_contributions_prefix(listings: Seq<DirListingView>, n: int)
    requires
        0 <= n <= listings.len(),
    ensures
        listed_contributions(listings.take(n)).is_prefix_of(listed_contributions(listings)),
    decreases listings.len(),
{
    if n < listings.len() {
        assert(listings.drop_last().take(n) =~= listings.take(n));
        lemma_listed_contributions_prefix(listings.drop_last(), n);
    } else {
        assert(listings.take(n) =~= listings);
    }
}

proof fn lemma_rollout_contributions_prefix(files: Seq<FoundFileView>, n: int)
    requires
        0 <= n <= files.len(),
    ensures
        rollout_contributions(files.take(n)).is_prefix_of(rollout_contributions(files)),
    decreases files.len(),
{
    if n < files.len() {
        assert(files.drop_last().take(n) =~= files.take(n));
        lemma_rollout_contributions_prefix(files.drop_last(), n);
    } else {
        assert(files.take(n) =~= files);
    }
}

proof fn lemma_uncountable_listing(dirs: Seq<DirListingView>, files: Seq<FoundFileView>, n: int)
    requires
        0 <= n <= dirs.len(),
        exists|id: Seq<char>|
            bytes_in(#[trigger] of_session(listed_contributions(dirs.take(n)), id)) > u64::MAX,
    ensures
        !countable(contributions(dirs, files)),
{
    let all = contributions(dirs, files);
    let some = listed_contributions(dirs.take(n));
    let id = choose|id: Seq<char>| bytes_in(#[trigger] of_session(some, id)) > u64::MAX;
    lemma_listed_contributions_prefix(dirs, n);
    let rest = all.skip(some.len() as int);
    assert(all =~= some + rest);
    lemma_uncountable(some, all, rest, id);
}

/// Adds the session directories that one location lists. Fails where the bytes of a session cannot
/// be counted in 64 bits.
fn absorb_listing(
    sessions: &mut Vec<FsSession>,
    listing: &DirListing,
    all: Ghost<Seq<Contribution>>,
) -> (r: bool)
    requires
        by_session(all@, old(sessions).deep_view()),
    ensures
        ({
            let more = all@ + dir_contributions(listing.loc@, listing.found.deep_view());
            if r {
                by_session(more, final(sessions).deep_view())
            } else {
                exists|id: Seq<char>| bytes_in(#[trigger] of_session(more, id)) > u64::MAX
            }
        }),
{
    let ghost found = listing.found.deep_view();
    let ghost loc = listing.loc@;
    let ghost mut so_far = all@;
    let mut i: usize = 0;
    assert(found.take(0) =~= Seq::<FoundDirView>::empty());
    assert(all@ + dir_contributions(loc, found.take(0)) =~= all@);
    while i < listing.found.len()
        invariant
            found == listing.found.deep_view(),
            loc == listing.loc@,
            i <= found.len(),
            so_far == all@ + dir_contributions(loc, found.take(i as int)),
            by_session(so_far, sessions.deep_view()),
        decreases found.len() - i,
    {
        let f = &listing.found[i];
        assert(f.deep_view() == found[i as int]);
        assert(found.take(i + 1).drop_last() =~= found.take(i as int));
        if session_dir(f.name.as_str(), f.is_dir) {
            let part = SessionPart {
                loc: listing.loc.clone(),
                label: loc_label(listing.loc.as_str()),
                size: f.size,
            };
            let ghost c = Contribution { id: f.name@, part: part.deep_view(), mtime: f.mtime };
            assert(so_far.push(c) =~= all@ + dir_contributions(loc, found.take(i + 1)));
            if !absorb(sessions, &f.name, part, f.mtime, Ghost(so_far)) {
                proof {
                    lemma_dir_contributions_prefix(loc, found, i + 1);
                    let whole = all@ + dir_contributions(loc, found);
                    let rest = whole.skip(so_far.push(c).len() as int);
                    assert(whole =~= so_far.push(c) + rest);
                    lemma_bytes_grow(so_far.push(c), rest, c.id);
                    assert(bytes_in(of_session(whole, c.id)) > u64::MAX);
                }
                return false;
            }
            proof {
                so_far = so_far.push(c);
            }
        }
        i += 1;
    }
    assert(found.take(i as int) =~= found);
    true
}

/// What the disk holds of each session, or `None` where the bytes of one cannot be counted in 64
/// bits.
#[verifier::spinoff_prover]
#[verifier::rlimit(40)]
pub fn group_sessions(listings: &Vec<DirListing>, rollout: &Vec<FoundFile>) -> (r: Option<
    Vec<FsSession>,
>)
    ensures
        ({
            let all = contributions(listings.deep_view(), rollout.deep_view());
            match r {
                Some(sessions) => countable(all) && by_session(all, sessions.deep_view()),
                None => !countable(all),
            }
        }),
{
    let ghost dirs = listings.deep_view();
    let ghost files = rollout.deep_view();
    let ghost all = contributions(dirs, files);
    let mut sessions: Vec<FsSession> = Vec::new();
    let ghost mut so_far: Seq<Contribution> = Seq::empty();
    let mut i: usize = 0;
    assert(dirs.take(0) =~= Seq::<DirListingView>::empty());
    while i < listings.len()
        invariant
            dirs == listings.deep_view(),
            files == rollout.deep_view(),
            i <= dirs.len(),
            all == contributions(dirs, files),
            so_far == listed_contributions(dirs.take(i as int)),
            by_session(so_far, sessions.deep_view()),
        decreases dirs.len() - i,
    {
        assert(dirs.take(i + 1).drop_last() =~= dirs.take(i as int));
        assert(listings@[i as int].deep_view() == dirs[i as int]);
        let ghost more = listed_contributions(dirs.take(i + 1));
        if !absorb_listing(&mut sessions, &listings[i], Ghost(so_far)) {
            proof {
                lemma_uncountable_listing(dirs, files, i + 1);
            }
            return None;
        }
        proof {
            so_far = more;
        }
        i += 1;
    }
    assert(dirs.take(i as int) =~= dirs);
    let ghost listed = so_far;
    let mut j: usize = 0;
    assert(files.take(0) =~= Seq::<FoundFileView>::empty());
    assert(listed + rollout_contributions(files.take(0)) =~= listed);
    while j < rollout.len()
        invariant
            dirs == listings.deep_view(),
            files == rollout.deep_view(),
            j <= files.len(),
            listed == listed_contributions(dirs),
            all == contributions(dirs, files),
            so_far == listed + rollout_contributions(files.take(j as int)),
            by_session(so_far, sessions.deep_view()),
        decreases files.len() - j,
    {
        let f = &rollout[j];
        assert(f.deep_view() == files[j as int]);
        assert(files.take(j + 1).drop_last() =~= files.take(j as int));
        if let Some(id) = rollout_id(f.name.as_str()) {
            let part = SessionPart {
                loc: "rollout".to_owned(),
                label: "模型IO".to_owned(),
                size: f.size,
            };
            let ghost c = Contribution { id: id@, part: part.deep_view(), mtime: f.mtime };
            assert(so_far.push(c) =~= listed + rollout_contributions(files.take(j + 1)));
            if !absorb(&mut sessions, &id, part, f.mtime, Ghost(so_far)) {
                proof {
                    lemma_rollout_contributions_prefix(files, j + 1);
                    let rest = all.skip(so_far.push(c).len() as int);
                    assert(all =~= so_far.push(c) + rest);
                    lemma_uncountable(so_far.push(c), all, rest, c.id);
                }
                return None;
            }
            proof {
                so_far = so_far.push(c);
            }
        }
        j += 1;
    }
    assert(files.take(j as int) =~= files);
    proof {
        assert forall|id: Seq<char>| bytes_in(#[trigger] of_session(all, id)) <= u64::MAX by {
            let found = sessions.deep_view();
            assert(among(found, id) == on_disk(all, id));
            if on_disk(all, id) {
                let k = choose|k: int| 0 <= k < found.len() && (#[trigger] found[k]).id == id;
                assert(found[k] == fs_session(all, id));
            } else {
                lemma_absent(all, id);
            }
        }
    }
    Some(sessions)
}

/// What the disk holds of each session: its parts in all locations, their size and the latest time
/// in them.
pub fn scan_fs_sessions(listings: &Vec<DirListing>, rollout: &Vec<FoundFile>) -> (r: Vec<FsSession>)
    requires
        countable(contributions(listings.deep_view(), rollout.deep_view())),
    ensures
        by_session(contributions(listings.deep_view(), rollout.deep_view()), r.deep_view()),
{
    group_sessions(listings, rollout).unwrap()
}

/// The bytes in the parts of a session.
pub open spec fn parts_size(parts: Seq<SessionPartView>) -> nat
    decreases parts.len(),
{
    if parts.len() == 0 {
        0
    } else {
        parts_size(parts.drop_last()) + parts.last().size as nat
    }
}

/// The size that is shown for a session is the sum of the sizes of its parts.
pub proof fn law_size_is_sum_of_parts(all: Seq<Contribution>, id: Seq<char>)
    ensures
        fs_session(all, id).size == parts_size(fs_session(all, id).parts),
{
    lemma_bytes_of_parts(of_session(all, id));
}

proof fn lemma_bytes_of_parts(own: Seq<Contribution>)
    ensures
        bytes_in(own) == parts_size(own.map_values(|c: Contribution| c.part)),
    decreases own.len(),
{
    if own.len() > 0 {
        lemma_bytes_of_parts(own.drop_last());
        assert(own.map_values(|c: Contribution| c.part).drop_last() =~= own.drop_last().map_values(
            |c: Contribution| c.part,
        ));
    }
}

/// Every piece of data on disk that belongs to a session is shown with that session, and the session
/// counts as active when that piece was last modified, or later.
pub proof fn law_nothing_on_disk_is_lost(
    all: Seq<Contribution>,
    sessions: Seq<FsSessionView>,
    c: Contribution,
)
    requires
        by_session(all, sessions),
        all.contains(c),
    ensures
        exists|k: int|
            0 <= k < sessions.len() && (#[trigger] sessions[k]).id == c.id
                && sessions[k].parts.contains(c.part) && sessions[k].mtime >= c.mtime,
{
    let at = choose|at: int| 0 <= at < all.len() && all[at] == c;
    assert(on_disk(all, c.id)) by {
        assert(all[at].id == c.id);
    }
    assert(among(sessions, c.id));
    let k = choose|k: int| 0 <= k < sessions.len() && (#[trigger] sessions[k]).id == c.id;
    let own = of_session(all, c.id);
    assert(own.contains(c)) by {
        broadcast use vstd::seq_lib::group_filter_ensures;

        assert(all[at].id == c.id);
    }
    let j = choose|j: int| 0 <= j < own.len() && own[j] == c;
    assert(sessions[k].parts[j] == c.part);
    lemma_latest_in(own, j);
}

proof fn lemma_latest_in(own: Seq<Contribution>, j: int)
    requires
        0 <= j < own.len(),
    ensures
        latest_in(own) >= own[j].mtime,
    decreases own.len(),
{
    if j < own.len() - 1 {
        lemma_latest_in(own.drop_last(), j);
    }
}

/// A well-formed session id is `sess_` with something behind it, made of ASCII digits (from 48 on),
/// capital (65) and small (97) letters, `-` (45) and `_` (95); and nothing else is one.
pub proof fn law_ids_are_made_of_these_characters(id: Seq<char>, rest: Seq<char>)
    ensures
        is_sess_id("sess_"@ + rest) == (rest.len() > 0 && forall|k: int|
            0 <= k < rest.len() ==> ({
                let n = #[trigger] rest[k] as int;
                48 <= n <= 57 || 65 <= n <= 90 || 97 <= n <= 122 || n == 45 || n == 95
            })),
        is_sess_id(id) ==> id == "sess_"@ + id.skip(5),
{
    reveal_strlit("sess_");
    let prefix = "sess_"@;
    let whole = prefix + rest;
    assert(prefix.is_prefix_of(whole)) by {
        assert(whole.subrange(0, 5) =~= prefix);
    }
    assert forall|k: int| 0 <= k < rest.len() implies rest[k] == #[trigger] whole[k + 5] by {}
    if is_sess_id(whole) {
        assert forall|k: int| 0 <= k < rest.len() implies is_id_char(#[trigger] rest[k]) by {
            assert(is_id_char(whole[k + 5]));
        }
    }
    assert forall|k: int| 5 <= k < whole.len() implies #[trigger] whole[k] == rest[k - 5] by {}
    if is_sess_id(id) {
        assert forall|k: int| 0 <= k < id.len() implies id[k] == (prefix + id.skip(5))[k] by {
            if k < 5 {
                assert(id[k] == prefix[k]);
            }
        }
        assert(id =~= prefix + id.skip(5));
    }
}

/// The four locations with one directory for each session, where they lie, and the names of all five
/// locations. A location that is not known goes by its key.
pub proof fn law_locations(key: Seq<char>)
    ensures
        session_dir_list().len() == 4,
        session_dir_list()[0] == ("agents"@, "cli/agents"@),
        session_dir_list()[1] == ("artifacts"@, "cli/artifacts"@),
        session_dir_list()[2] == ("exec"@, "cli/exec"@),
        session_dir_list()[3] == ("image-cache"@, "cli/image-cache"@),
        loc_label_text("agents"@) == "转录"@,
        loc_label_text("artifacts"@) == "产物"@,
        loc_label_text("exec"@) == "Shell快照"@,
        loc_label_text("image-cache"@) == "图片缓存"@,
        loc_label_text("rollout"@) == "模型IO"@,
        key != "agents"@ && key != "artifacts"@ && key != "exec"@ && key != "image-cache"@ && key
            != "rollout"@ ==> loc_label_text(key) == key,
{
    reveal_strlit("agents");
    reveal_strlit("artifacts");
    reveal_strlit("exec");
    reveal_strlit("image-cache");
    reveal_strlit("rollout");
    assert("agents"@.len() == 6);
    assert("artifacts"@.len() == 9);
    assert("exec"@.len() == 4);
    assert("image-cache"@.len() == 11);
    assert("rollout"@.len() == 7);
}

/// Every session directory that any location lists is counted, with its size and its time.
pub proof fn law_session_directories_are_counted(
    listings: Seq<DirListingView>,
    rollout: Seq<FoundFileView>,
    k: int,
    j: int,
)
    requires
        0 <= k < listings.len(),
        0 <= j < listings[k].found.len(),
        listings[k].found[j].is_dir,
        "sess_"@.is_prefix_of(listings[k].found[j].name),
    ensures
        contributions(listings, rollout).contains(
            Contribution {
                id: listings[k].found[j].name,
                part: SessionPartView {
                    loc: listings[k].loc,
                    label: loc_label_text(listings[k].loc),
                    size: listings[k].found[j].size,
                },
                mtime: listings[k].found[j].mtime,
            },
        ),
{
    let f = listings[k].found[j];
    let c = Contribution {
        id: f.name,
        part: SessionPartView {
            loc: listings[k].loc,
            label: loc_label_text(listings[k].loc),
            size: f.size,
        },
        mtime: f.mtime,
    };
    lemma_counted_in_listing(listings[k].loc, listings[k].found, j, c);
    lemma_counted_in_listings(listings, k, c);
    let listed = listed_contributions(listings);
    let at = choose|at: int| 0 <= at < listed.len() && listed[at] == c;
    assert(contributions(listings, rollout)[at] == c);
}

proof fn lemma_counted_in_listing(
    loc: Seq<char>,
    found: Seq<FoundDirView>,
    j: int,
    c: Contribution,
)
    requires
        0 <= j < found.len(),
        is_session_dir(found[j].name, found[j].is_dir),
        c == (Contribution {
            id: found[j].name,
            part: SessionPartView { loc, label: loc_label_text(loc), size: found[j].size },
            mtime: found[j].mtime,
        }),
    ensures
        dir_contributions(loc, found).contains(c),
    decreases found.len(),
{
    let all = dir_contributions(loc, found);
    if j < found.len() - 1 {
        let rest = dir_contributions(loc, found.drop_last());
        lemma_counted_in_listing(loc, found.drop_last(), j, c);
        let at = choose|at: int| 0 <= at < rest.len() && rest[at] == c;
        assert(all[at] == c);
    } else {
        assert(all[all.len() - 1] == c);
    }
}

proof fn lemma_counted_in_listings(listings: Seq<DirListingView>, k: int, c: Contribution)
    requires
        0 <= k < listings.len(),
        dir_contributions(listings[k].loc, listings[k].found).contains(c),
    ensures
        listed_contributions(listings).contains(c),
    decreases listings.len(),
{
    let before = listed_contributions(listings.drop_last());
    let last = dir_contributions(listings.last().loc, listings.last().found);
    if k < listings.len() - 1 {
        lemma_counted_in_listings(listings.drop_last(), k, c);
        let at = choose|at: int| 0 <= at < before.len() && before[at] == c;
        assert((before + last)[at] == c);
    } else {
        let at = choose|at: int| 0 <= at < last.len() && last[at] == c;
        assert((before + last)[before.len() + at] == c);
    }
}

/// Every rollout file of a session is counted, with its size and its time.
pub proof fn law_rollout_files_are_counted(
    listings: Seq<DirListingView>,
    rollout: Seq<FoundFileView>,
    j: int,
    id: Seq<char>,
)
    requires
        0 <= j < rollout.len(),
        "sess_"@.is_prefix_of(id),
        rollout[j].name == "model-io-"@ + id + ".jsonl"@,
    ensures
        contributions(listings, rollout).contains(
            Contribution {
                id,
                part: SessionPartView {
                    loc: "rollout"@,
                    label: "模型IO"@,
                    size: rollout[j].size,
                },
                mtime: rollout[j].mtime,
            },
        ),
{
    let c = Contribution {
        id,
        part: SessionPartView { loc: "rollout"@, label: "模型IO"@, size: rollout[j].size },
        mtime: rollout[j].mtime,
    };
    law_inner_stands_between(rollout[j].name, "model-io-"@, ".jsonl"@, id);
    lemma_counted_in_rollout(rollout, j, c);
    let listed = listed_contributions(listings);
    let files = rollout_contributions(rollout);
    let at = choose|at: int| 0 <= at < files.len() && files[at] == c;
    assert(contributions(listings, rollout)[listed.len() + at] == c);
}

proof fn lemma_counted_in_rollout(files: Seq<FoundFileView>, j: int, c: Contribution)
    requires
        0 <= j < files.len(),
        rollout_id_text(files[j].name) == Some(c.id),
        c == (Contribution {
            id: c.id,
            part: SessionPartView { loc: "rollout"@, label: "模型IO"@, size: files[j].size },
            mtime: files[j].mtime,
        }),
    ensures
        rollout_contributions(files).contains(c),
    decreases files.len(),
{
    let all = rollout_contributions(files);
    if j < files.len() - 1 {
        let rest = rollout_contributions(files.drop_last());
        lemma_counted_in_rollout(files.drop_last(), j, c);
        let at = choose|at: int| 0 <= at < rest.len() && rest[at] == c;
        assert(all[at] == c);
    } else {
        assert(all[all.len() - 1] == c);
    }
}

/// Nothing else is counted: what is counted is a session directory that a location lists, or the
/// rollout file of a session.
pub proof fn law_only_data_of_sessions_is_counted(
    listings: Seq<DirListingView>,
    rollout: Seq<FoundFileView>,
    c: Contribution,
)
    requires
        contributions(listings, rollout).contains(c),
    ensures
        "sess_"@.is_prefix_of(c.id),
        (exists|k: int, j: int|
            0 <= k < listings.len() && 0 <= j < listings[k].found.len() && (
            #[trigger] listings[k].found[j]).is_dir && listings[k].found[j].name == c.id
                && listings[k].found[j].size == c.part.size && listings[k].found[j].mtime == c.mtime
                && listings[k].loc == c.part.loc) || (exists|j: int|
            0 <= j < rollout.len() && (#[trigger] rollout[j]).name == "model-io-"@ + c.id + ".jsonl"@
                && rollout[j].size == c.part.size && rollout[j].mtime == c.mtime && c.part.loc
                == "rollout"@),
{
    let all = contributions(listings, rollout);
    let at = choose|at: int| 0 <= at < all.len() && all[at] == c;
    let listed = listed_contributions(listings);
    if at < listed.len() {
        let (k, j) = lemma_counted_from_listings(listings, at);
        let f = listings[k].found[j];
        assert(f.is_dir && f.name == c.id);
    } else {
        let j = lemma_counted_from_rollout(rollout, at - listed.len());
        law_inner_stands_between(rollout[j].name, "model-io-"@, ".jsonl"@, c.id);
        assert(rollout[j].size == c.part.size);
    }
}

proof fn lemma_counted_from_listing(loc: Seq<char>, found: Seq<FoundDirView>, at: int) -> (j: int)
    requires
        0 <= at < dir_contributions(loc, found).len(),
    ensures
        0 <= j < found.len(),
        is_session_dir(found[j].name, found[j].is_dir),
        dir_contributions(loc, found)[at] == (Contribution {
            id: found[j].name,
            part: SessionPartView { loc, label: loc_label_text(loc), size: found[j].size },
            mtime: found[j].mtime,
        }),
    decreases found.len(),
{
    if at < dir_contributions(loc, found.drop_last()).len() {
        lemma_counted_from_listing(loc, found.drop_last(), at)
    } else {
        found.len() - 1
    }
}

proof fn lemma_counted_from_listings(listings: Seq<DirListingView>, at: int) -> (r: (int, int))
    requires
        0 <= at < listed_contributions(listings).len(),
    ensures
        0 <= r.0 < listings.len(),
        0 <= r.1 < listings[r.0].found.len(),
        ({
            let f = listings[r.0].found[r.1];
            let loc = listings[r.0].loc;
            &&& is_session_dir(f.name, f.is_dir)
            &&& listed_contributions(listings)[at] == (Contribution {
                id: f.name,
                part: SessionPartView { loc, label: loc_label_text(loc), size: f.size },
                mtime: f.mtime,
            })
        }),
    decreases listings.len(),
{
    let before = listed_contributions(listings.drop_last());
    if at < before.len() {
        lemma_counted_from_listings(listings.drop_last(), at)
    } else {
        let last = listings.last();
        let j = lemma_counted_from_listing(last.loc, last.found, at - before.len());
        (listings.len() - 1, j)
    }
}

proof fn lemma_counted_from_rollout(files: Seq<FoundFileView>, at: int) -> (j: int)
    requires
        0 <= at < rollout_contributions(files).len(),
    ensures
        0 <= j < files.len(),
        rollout_id_text(files[j].name) == Some(rollout_contributions(files)[at].id),
        rollout_contributions(files)[at].part.size == files[j].size,
        rollout_contributions(files)[at].part.loc == "rollout"@,
        rollout_contributions(files)[at].mtime == files[j].mtime,
    decreases files.len(),
{
    if at < rollout_contributions(files.drop_last()).len() {
        lemma_counted_from_rollout(files.drop_last(), at)
    } else {
        files.len() - 1
    }
}

/// What is counted is counted once, in the order in which it is found: first what the locations list,
/// one after the other, then the rollout files; and more of either adds to what was counted before.
pub proof fn law_counting_adds_up(
    loc: Seq<char>,
    found: Seq<FoundDirView>,
    more_found: Seq<FoundDirView>,
    listings: Seq<DirListingView>,
    more_listings: Seq<DirListingView>,
    files: Seq<FoundFileView>,
    more_files: Seq<FoundFileView>,
)
    ensures
        contributions(seq![DirListingView { loc, found: found + more_found }], Seq::empty())
            == contributions(seq![DirListingView { loc, found }], Seq::empty()) + contributions(
            seq![DirListingView { loc, found: more_found }],
            Seq::empty(),
        ),
        contributions(listings + more_listings, files) == contributions(listings, Seq::empty())
            + contributions(more_listings, files),
        contributions(listings, files + more_files) == contributions(listings, files)
            + contributions(Seq::empty(), more_files),
        contributions(Seq::empty(), Seq::empty()).len() == 0,
{
    lemma_dir_contributions_add(loc, found, more_found);
    lemma_listed_contributions_add(listings, more_listings);
    lemma_rollout_contributions_add(files, more_files);
    lemma_one_listing(loc, found);
    lemma_one_listing(loc, more_found);
    lemma_one_listing(loc, found + more_found);
    let none = rollout_contributions(Seq::<FoundFileView>::empty());
    assert(none =~= Seq::<Contribution>::empty());
    assert(contributions(seq![DirListingView { loc, found: found + more_found }], Seq::empty())
        =~= contributions(seq![DirListingView { loc, found }], Seq::empty()) + contributions(
        seq![DirListingView { loc, found: more_found }],
        Seq::empty(),
    ));
    assert(contributions(listings + more_listings, files) =~= contributions(listings, Seq::empty())
        + contributions(more_listings, files));
    assert(contributions(listings, files + more_files) =~= contributions(listings, files)
        + contributions(Seq::empty(), more_files));
}

/// Of one thing that is found, at most one piece is counted.
pub proof fn law_one_find_counts_once(loc: Seq<char>, dir: FoundDirView, file: FoundFileView)
    ensures
        contributions(seq![DirListingView { loc, found: seq![dir] }], Seq::empty()).len() <= 1,
        contributions(Seq::empty(), seq![file]).len() <= 1,
{
    lemma_one_listing(loc, seq![dir]);
    assert(seq![dir].drop_last() =~= Seq::<FoundDirView>::empty());
    assert(dir_contributions(loc, seq![dir].drop_last()).len() == 0);
    assert(rollout_contributions(Seq::<FoundFileView>::empty()).len() == 0);
    assert(seq![file].drop_last() =~= Seq::<FoundFileView>::empty());
    assert(listed_contributions(Seq::<DirListingView>::empty()).len() == 0);
}

proof fn lemma_one_listing(loc: Seq<char>, found: Seq<FoundDirView>)
    ensures
        listed_contributions(seq![DirListingView { loc, found }]) == dir_contributions(loc, found),
{
    let one = seq![DirListingView { loc, found }];
    assert(one.drop_last() =~= Seq::<DirListingView>::empty());
    assert(listed_contributions(one.drop_last()) =~= Seq::<Contribution>::empty());
    assert(listed_contributions(one) =~= dir_contributions(loc, found));
}

proof fn lemma_dir_contributions_add(
    loc: Seq<char>,
    a: Seq<FoundDirView>,
    b: Seq<FoundDirView>,
)
    ensures
        dir_contributions(loc, a + b) == dir_contributions(loc, a) + dir_contributions(loc, b),
    decreases b.len(),
{
    if b.len() > 0 {
        lemma_dir_contributions_add(loc, a, b.drop_last());
        assert((a + b).drop_last() =~= a + b.drop_last());
        assert((a + b).last() == b.last());
    } else {
        assert(a + b =~= a);
    }
    assert(dir_contributions(loc, a + b) =~= dir_contributions(loc, a) + dir_contributions(loc, b));
}

proof fn lemma_listed_contributions_add(a: Seq<DirListingView>, b: Seq<DirListingView>)
    ensures
        listed_contributions(a + b) == listed_contributions(a) + listed_contributions(b),
    decreases b.len(),
{
    if b.len() > 0 {
        lemma_listed_contributions_add(a, b.drop_last());
        assert((a + b).drop_last() =~= a + b.drop_last());
        assert((a + b).last() == b.last());
    } else {
        assert(a + b =~= a);
    }
    assert(listed_contributions(a + b) =~= listed_contributions(a) + listed_contributions(b));
}

proof fn lemma_rollout_contributions_add(a: Seq<FoundFileView>, b: Seq<FoundFileView>)
    ensures
        rollout_contributions(a + b) == rollout_contributions(a) + rollout_contributions(b),
    decreases b.len(),
{
    if b.len() > 0 {
        lemma_rollout_contributions_add(a, b.drop_last());
        assert((a + b).drop_last() =~= a + b.drop_last());
        assert((a + b).last() == b.last());
    } else {
        assert(a + b =~= a);
    }
    assert(rollout_contributions(a + b) =~= rollout_contributions(a) + rollout_contributions(b));
}

/// Each piece of data adds to its own session, and to no other: one part behind the parts before, its
/// size to the size, and its time where it is later. A session without data has nothing.
pub proof fn law_each_piece_adds_to_its_session(
    all: Seq<Contribution>,
    c: Contribution,
    other: Seq<char>,
)
    ensures
        fs_session(all.push(c), c.id).id == c.id,
        fs_session(all.push(c), c.id).parts == fs_session(all, c.id).parts.push(c.part),
        fs_session(all.push(c), c.id).size == fs_session(all, c.id).size + c.part.size,
        fs_session(all.push(c), c.id).mtime >= c.mtime,
        fs_session(all.push(c), c.id).mtime >= fs_session(all, c.id).mtime,
        fs_session(all.push(c), c.id).mtime == c.mtime || fs_session(all.push(c), c.id).mtime
            == fs_session(all, c.id).mtime,
        other != c.id ==> fs_session(all.push(c), other) == fs_session(all, other),
        fs_session(Seq::empty(), other) == (FsSessionView {
            id: other,
            parts: Seq::empty(),
            size: 0,
            mtime: 0,
        }),
{
    lemma_fs_session_push(all, c, c.id);
    lemma_fs_session_push(all, c, other);
    lemma_absent(Seq::empty(), other);
}

/// Grouping is exact: every session of which something was found is there, once, with all that was
/// found of it; and none of which nothing was found.
pub proof fn law_grouping_is_exact(
    all: Seq<Contribution>,
    sessions: Seq<FsSessionView>,
    k: int,
    m: int,
    n: int,
)
    requires
        by_session(all, sessions),
    ensures
        0 <= k < all.len() ==> exists|i: int|
            0 <= i < sessions.len() && (#[trigger] sessions[i]).id == all[k].id,
        0 <= m < sessions.len() ==> exists|i: int|
            0 <= i < all.len() && (#[trigger] all[i]).id == sessions[m].id,
        0 <= m < n < sessions.len() ==> sessions[m].id != sessions[n].id,
        0 <= m < sessions.len() ==> sessions[m] == fs_session(all, sessions[m].id),
{
    if 0 <= k < all.len() {
        assert(on_disk(all, all[k].id));
        assert(among(sessions, all[k].id));
    }
    if 0 <= m < sessions.len() {
        assert(among(sessions, sessions[m].id));
        assert(on_disk(all, sessions[m].id));
    }
}

/// Data on disk can be counted exactly if no session takes more than 2^64 - 1 bytes.
pub proof fn law_countable_means_64_bits(all: Seq<Contribution>)
    ensures
        countable(all) == forall|id: Seq<char>|
            (#[trigger] fs_session(all, id)).size <= 0xffff_ffff_ffff_ffff,
{
    if countable(all) {
        assert forall|id: Seq<char>| (#[trigger] fs_session(all, id)).size
            <= 0xffff_ffff_ffff_ffff by {
            assert(bytes_in(of_session(all, id)) <= u64::MAX);
        }
    }
    if forall|id: Seq<char>| (#[trigger] fs_session(all, id)).size <= 0xffff_ffff_ffff_ffff {
        assert forall|id: Seq<char>| bytes_in(#[trigger] of_session(all, id)) <= u64::MAX by {
            assert(fs_session(all, id).size <= 0xffff_ffff_ffff_ffff);
        }
    }
}

} // verus!
