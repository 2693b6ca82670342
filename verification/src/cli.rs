//! The command line: `--scan`, `--delete-sessions <id,...> [--force]` or `--vacuum`.
use crate::sessions::{is_id_char, is_sess_id, ID_PREFIX};
use crate::text::{
    is_white, joined_text, lists, same_text, split, split_text, trim, trimmed_text,
    without_leading_white, without_trailing_white,
};
use crate::total::{total_answer, TotalAnswer, TotalCache};
use vstd::prelude::*;
use vstd::string::*;

verus! {

/// What the command line asks for.
#[derive(Debug)]
pub enum Command {
    Scan,
    DeleteSessions { ids: Vec<String>, force: bool },
    Vacuum,
}

/// What a `Command` holds.
pub enum CommandView {
    Scan,
    DeleteSessions { ids: Seq<Seq<char>>, force: bool },
    Vacuum,
}

impl DeepView for Command {
    type V = CommandView;

    open spec fn deep_view(&self) -> CommandView {
        match self {
            Command::Scan => CommandView::Scan,
            Command::DeleteSessions { ids, force } => CommandView::DeleteSessions {
                ids: ids.deep_view(),
                force: *force,
            },
            Command::Vacuum => CommandView::Vacuum,
        }
    }
}

impl CommandView {
    /// Whether the command measures the data directory anew: a scan always does.
    pub open spec fn compute_total(self) -> bool {
        self is Scan
    }
}

impl Command {
    /// Whether the command measures the data directory anew: a scan always does.
    pub fn compute_total(&self) -> (r: bool)
        ensures
            r == self.deep_view().compute_total(),
    {
        match self {
            Command::Scan => true,
            Command::DeleteSessions { .. } => false,
            Command::Vacuum => false,
        }
    }
}

/// The ids in a list with commas between them.
pub open spec fn listed_ids(list: Seq<char>) -> Seq<Seq<char>> {
    split_text(list, ',').map_values(|piece: Seq<char>| trimmed_text(piece))
}

/// What the command line asks for, or what is wrong with it. The first argument is the program.
pub open spec fn command_of(args: Seq<Seq<char>>) -> Result<CommandView, Seq<char>> {
    if args[1] == "--scan"@ {
        Ok(CommandView::Scan)
    } else if args[1] == "--delete-sessions"@ {
        if args.len() < 3 {
            Err("用法: zcode-cleaner --delete-sessions <sess_id[,sess_id2...]> [--force]"@)
        } else {
            Ok(
                CommandView::DeleteSessions {
                    ids: listed_ids(args[2]),
                    force: args.contains("--force"@),
                },
            )
        }
    } else if args[1] == "--vacuum"@ {
        Ok(CommandView::Vacuum)
    } else {
        Err(
            "未知参数 "@ + args[1]
                + "。用法: --scan | --delete-sessions <id,...> [--force] | --vacuum"@,
        )
    }
}

/// The ids in a list with commas between them.
fn ids_in(list: &str) -> (r: Vec<String>)
    ensures
        r.deep_view() == listed_ids(list@),
{
    let pieces = split(list, ',');
    let ghost wanted = listed_ids(list@);
    let mut r: Vec<String> = Vec::new();
    let mut i: usize = 0;
    assert(r.deep_view() =~= wanted.take(0));
    while i < pieces.len()
        invariant
            pieces.deep_view() == split_text(list@, ','),
            wanted == listed_ids(list@),
            wanted.len() == pieces.len(),
            i <= pieces.len(),
            r.deep_view() == wanted.take(i as int),
        decreases pieces.len() - i,
    {
        let ghost before = r.deep_view();
        let id = trim(pieces[i].as_str());
        assert(pieces@[i as int]@ == pieces.deep_view()[i as int]);
        assert(id@ == wanted[i as int]);
        r.push(id);
        assert(r.deep_view() =~= before.push(wanted[i as int]));
        assert(r.deep_view() =~= wanted.take(i + 1));
        i += 1;
    }
    assert(r.deep_view() =~= wanted);
    r
}

/// Reads a command line that has at least one argument besides the program.
pub fn cli_run(args: &Vec<String>) -> (r: Result<Command, String>)
    requires
        args.len() >= 2,
    ensures
        match r {
            Ok(command) => command_of(args.deep_view()) == Ok::<CommandView, Seq<char>>(
                command.deep_view(),
            ),
            Err(e) => command_of(args.deep_view()) == Err::<CommandView, Seq<char>>(e@),
        },
{
    let first = args[1].as_str();
    assert(args.deep_view()[1] == first@);
    if same_text(first, "--scan") {
        Ok(Command::Scan)
    } else if same_text(first, "--delete-sessions") {
        if args.len() < 3 {
            Err("用法: zcode-cleaner --delete-sessions <sess_id[,sess_id2...]> [--force]".to_owned())
        } else {
            assert(args.deep_view()[2] == args@[2]@);
            let ids = ids_in(args[2].as_str());
            let force = lists(args, &"--force".to_owned());
            Ok(Command::DeleteSessions { ids, force })
        }
    } else if same_text(first, "--vacuum") {
        Ok(Command::Vacuum)
    } else {
        let mut e = "未知参数 ".to_owned();
        e.append(first);
        e.append("。用法: --scan | --delete-sessions <id,...> [--force] | --vacuum");
        Err(e)
    }
}

/// A scan that the command line asks for measures the data directory anew, whatever is remembered.
pub proof fn law_command_line_scans_measure_anew(args: Seq<Seq<char>>, cache: TotalCache)
    requires
        args.len() >= 2,
        args[1] == "--scan"@,
    ensures
        command_of(args) matches Ok(command) && command is Scan && total_answer(
            cache,
            command.compute_total(),
        ) == TotalAnswer::Measure,
{
}

/// A list of well-formed session ids with commas between them is read as those ids.
pub proof fn law_id_lists_are_read_back(ids: Seq<Seq<char>>)
    requires
        ids.len() > 0,
        forall|k: int| 0 <= k < ids.len() ==> is_sess_id(#[trigger] ids[k]),
    ensures
        listed_ids(joined_text(ids, seq![','])) == ids,
{
    assert forall|k: int| 0 <= k < ids.len() implies !(#[trigger] ids[k]).contains(',')
        && trimmed_text(ids[k]) == ids[k] by {
        lemma_id_is_bare(ids[k]);
    }
    lemma_split_joined(ids, ',');
    assert(listed_ids(joined_text(ids, seq![','])) =~= ids);
}

proof fn lemma_id_is_bare(id: Seq<char>)
    requires
        is_sess_id(id),
    ensures
        !id.contains(','),
        trimmed_text(id) == id,
{
    reveal_strlit("sess_");
    assert forall|k: int| 0 <= k < id.len() implies #[trigger] id[k] != ',' && !is_white(id[k]) by {
        if k < 5 {
            assert(id[k] == ID_PREFIX@[k]);
        } else {
            assert(is_id_char(id[k]));
        }
    }
    assert(!is_white(id[0]));
    assert(!is_white(id[id.len() - 1]));
    assert(without_leading_white(id) == id);
    assert(without_trailing_white(id) == id);
}

proof fn lemma_split_joined(pieces: Seq<Seq<char>>, sep: char)
    requires
        pieces.len() > 0,
        forall|k: int| 0 <= k < pieces.len() ==> !(#[trigger] pieces[k]).contains(sep),
    ensures
        split_text(joined_text(pieces, seq![sep]), sep) == pieces,
    decreases pieces.len(),
{
    let last = pieces.last();
    assert(!pieces[pieces.len() - 1].contains(sep));
    if pieces.len() == 1 {
        lemma_split_tail(Seq::empty(), last, sep);
        assert(Seq::<char>::empty() + last =~= last);
        assert(split_text(last, sep) =~= pieces);
    } else {
        let fewer = pieces.drop_last();
        assert forall|k: int| 0 <= k < fewer.len() implies !(#[trigger] fewer[k]).contains(sep) by {
            assert(fewer[k] == pieces[k]);
        }
        lemma_split_joined(fewer, sep);
        let head = joined_text(fewer, seq![sep]) + seq![sep];
        assert(head.drop_last() =~= joined_text(fewer, seq![sep]));
        assert(split_text(head, sep) == fewer.push(Seq::empty()));
        lemma_split_tail(head, last, sep);
        assert(split_text(head + last, sep) =~= pieces);
    }
}

proof fn lemma_split_tail(head: Seq<char>, tail: Seq<char>, sep: char)
    requires
        !tail.contains(sep),
    ensures
        split_text(head, sep).len() > 0,
        split_text(head + tail, sep) == split_text(head, sep).drop_last().push(
            split_text(head, sep).last() + tail,
        ),
    decreases tail.len(),
{
    crate::text::law_split_rejoins(head, sep);
    let before = split_text(head, sep);
    if tail.len() == 0 {
        assert(head + tail =~= head);
        assert(before.last() + tail =~= before.last());
        assert(before.drop_last().push(before.last()) =~= before);
    } else {
        let shorter = tail.drop_last();
        assert(!shorter.contains(sep)) by {
            if shorter.contains(sep) {
                let k = choose|k: int| 0 <= k < shorter.len() && shorter[k] == sep;
                assert(tail[k] == sep);
            }
        }
        lemma_split_tail(head, shorter, sep);
        assert((head + tail).drop_last() =~= head + shorter);
        assert((head + tail).last() == tail.last());
        assert(tail.last() != sep) by {
            assert(tail.contains(tail[tail.len() - 1]));
        }
        let mid = split_text(head + shorter, sep);
        assert(mid.drop_last() =~= before.drop_last());
        assert(mid.last().push(tail.last()) =~= before.last() + tail);
    }
}

/// The first argument says what is asked for. A deletion takes its ids from the second one, and is
/// forced exactly if `--force` stands anywhere. Everything else is an error that says how to do it.
pub proof fn law_first_argument_decides(args: Seq<Seq<char>>)
    requires
        args.len() >= 2,
    ensures
        args[1] == "--scan"@ ==> command_of(args) == Ok::<CommandView, Seq<char>>(CommandView::Scan),
        args[1] == "--vacuum"@ ==> command_of(args) == Ok::<CommandView, Seq<char>>(
            CommandView::Vacuum,
        ),
        args[1] == "--delete-sessions"@ && args.len() >= 3 ==> command_of(args) == Ok::<
            CommandView,
            Seq<char>,
        >(
            CommandView::DeleteSessions {
                ids: listed_ids(args[2]),
                force: exists|k: int| 0 <= k < args.len() && #[trigger] args[k] == "--force"@,
            },
        ),
        args[1] == "--delete-sessions"@ && args.len() < 3 ==> command_of(args) == Err::<
            CommandView,
            Seq<char>,
        >("用法: zcode-cleaner --delete-sessions <sess_id[,sess_id2...]> [--force]"@),
        args[1] != "--scan"@ && args[1] != "--vacuum"@ && args[1] != "--delete-sessions"@
            ==> command_of(args) == Err::<CommandView, Seq<char>>(
            "未知参数 "@ + args[1]
                + "。用法: --scan | --delete-sessions <id,...> [--force] | --vacuum"@,
        ),
{
    reveal_strlit("--scan");
    reveal_strlit("--vacuum");
    reveal_strlit("--delete-sessions");
    assert("--scan"@.len() == 6);
    assert("--vacuum"@.len() == 8);
    assert("--delete-sessions"@.len() == 17);
}

/// A list of ids is read piece by piece: whatever stands between the commas is one id each, without
/// the white space around it.
pub proof fn law_each_piece_of_a_list_is_an_id(pieces: Seq<Seq<char>>, k: int)
    requires
        forall|i: int| 0 <= i < pieces.len() ==> !(#[trigger] pieces[i]).contains(','),
        0 <= k < pieces.len(),
    ensures
        listed_ids(joined_text(pieces, seq![','])).len() == pieces.len(),
        listed_ids(joined_text(pieces, seq![',']))[k] == trimmed_text(pieces[k]),
{
    lemma_split_joined(pieces, ',');
}

} // verus!
