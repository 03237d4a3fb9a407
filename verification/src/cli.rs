//! What the commands of the program decide: which thread an index names,
//! which persona a name selects, and what an answer to a question means.

use vstd::prelude::*;
use vstd::string::StringExecFns;

use crate::config::Config;
use crate::config::PromptView;
use crate::config::lowercase;
use crate::config::lowercased;
use crate::config::matching;
use crate::config::prompt_ref_views;
use crate::decimal::decimal;
use crate::decimal::decimal_of;
use crate::error::Error;
use crate::lines::join;
use crate::lines::joined;
use crate::lines::views;
use crate::llm::PromptModel;
use crate::llm::PromptSetting;
use crate::session::Session;
use crate::session::SessionModel;
use crate::session::began;
use crate::session::comes_first;
use crate::session::is_open;
use crate::text::chars_of;
use crate::text::slice;
use crate::text::str_eq;
use crate::text::string_of;
use crate::text::trim_end;
use crate::text::without_trailing_ws;
use crate::thread::Thread;

verus! {

/// The thread that a number names in a list of threads, counted from 1.
pub fn thread_at(ordered: &Vec<(u128, &Thread)>, index: i64) -> (r: Option<u128>)
    ensures
        r == if 1 <= index <= ordered@.len() {
            Some(ordered@[index - 1].0)
        } else {
            None
        },
{
    if index < 1 {
        return None;
    }
    let at: u64 = (index - 1) as u64;
    if at >= ordered.len() as u64 {
        return None;
    }
    Some(ordered[at as usize].0)
}

/// The threads of a session in which something was said.
pub open spec fn open_ids(s: SessionModel) -> Set<u128> {
    Set::new(|x: u128| s.threads.contains_key(x) && is_open(s.threads[x]))
}

/// The threads in which something was said that stand in the list before
/// the given one.
pub open spec fn earlier(s: SessionModel, id: u128) -> Set<u128> {
    Set::new(
        |x: u128|
            s.threads.contains_key(x) && is_open(s.threads[x]) && comes_first(
                began(s.threads[x]),
                x,
                began(s.threads[id]),
                id,
            ),
    )
}

/// The thread that a number of the list names. The threads in which
/// something was said are counted from 1, the one that began first at the
/// front, and of those that began together the one with the smallest
/// identifier: the number names the thread that as many threads stand
/// before as the number says, less one. A number that is no place of the
/// list names none.
pub fn thread_by_index(session: &Session, index: i64) -> (r: Option<u128>)
    ensures
        r is Some == (1 <= index <= open_ids(session@).len()),
        r matches Some(id) ==> open_ids(session@).contains(id) && earlier(session@, id).len()
            == index - 1,
{
    let ordered = session.ordered_threads();
    let found = thread_at(&ordered, index);
    proof {
        let ids = Seq::new(ordered@.len(), |j: int| ordered@[j].0);
        assert(ids.no_duplicates()) by {
            assert forall|a: int, b: int| 0 <= a < ids.len() && 0 <= b < ids.len() && a != b implies ids[a]
                != ids[b] by {
                if a < b {
                    assert(ordered@[a].0 != ordered@[b].0);
                } else {
                    assert(ordered@[b].0 != ordered@[a].0);
                }
            }
        }
        assert(ids.to_set() =~= open_ids(session@)) by {
            assert forall|x: u128| ids.to_set().contains(x) <==> open_ids(session@).contains(x) by {
                if ids.contains(x) {
                    let j = choose|j: int| 0 <= j < ids.len() && ids[j] == x;
                    assert(session@.threads.contains_key(ordered@[j].0));
                }
                if open_ids(session@).contains(x) {
                    assert(is_open(session@.threads[x]));
                    let k = choose|k: int| 0 <= k < ordered@.len() && (#[trigger] ordered@[k]).0 == x;
                    assert(ids[k] == x);
                }
            }
        }
        ids.unique_seq_to_set();
        if found is Some {
            let k = index - 1;
            let id = ordered@[k].0;
            assert(session@.threads.contains_key(ordered@[k].0));
            let before = ids.take(k);
            assert(before.no_duplicates());
            assert(before.to_set() =~= earlier(session@, id)) by {
                assert forall|x: u128| before.to_set().contains(x) <==> earlier(
                    session@,
                    id,
                ).contains(x) by {
                    if before.contains(x) {
                        let j = choose|j: int| 0 <= j < before.len() && before[j] == x;
                        assert(session@.threads.contains_key(ordered@[j].0));
                        assert(comes_first(
                            began(ordered@[j].1@),
                            ordered@[j].0,
                            began(ordered@[k].1@),
                            ordered@[k].0,
                        ));
                    }
                    if earlier(session@, id).contains(x) {
                        assert(is_open(session@.threads[x]));
                        let j = choose|j: int|
                            0 <= j < ordered@.len() && (#[trigger] ordered@[j]).0 == x;
                        assert(session@.threads.contains_key(ordered@[j].0));
                        if j > k {
                            assert(comes_first(
                                began(ordered@[k].1@),
                                ordered@[k].0,
                                began(ordered@[j].1@),
                                ordered@[j].0,
                            ));
                        }
                        assert(j < k);
                        assert(before[j] == x);
                    }
                }
            }
            before.unique_seq_to_set();
        }
    }
    found
}

/// What an answer to a question means. Upper and lower case are the same
/// and white space at the end is passed over. No answer and `n` mean no,
/// `y` means yes, anything else means nothing.
pub open spec fn answer_of(answer: Seq<char>) -> Option<bool> {
    let given = without_trailing_ws(lowercased(answer));
    if given.len() == 0 || given == "n"@ {
        Some(false)
    } else if given == "y"@ {
        Some(true)
    } else {
        None
    }
}

/// What an answer to a question means.
pub fn parse_yes_no(answer: &str) -> (r: Option<bool>)
    ensures
        r == answer_of(answer@),
{
    let given = trim_end(&chars_of(lowercase(answer).as_str()));
    if given.len() == 0 {
        return Some(false);
    }
    let text = string_of(&given);
    if str_eq(text.as_str(), "n") {
        Some(false)
    } else if str_eq(text.as_str(), "y") {
        Some(true)
    } else {
        None
    }
}

/// The line of the list for the thread with the given number, counted from
/// 0: the number counted from 1 in brackets, and what is shown of the
/// thread.
pub open spec fn list_line_of(index: nat, shown: Seq<char>) -> Seq<char> {
    "("@ + decimal(index + 1) + ") "@ + shown
}

/// The line of the list for the thread with the given number.
pub fn list_line(index: usize, shown: &str) -> (r: String)
    requires
        index < usize::MAX,
    ensures
        r@ == list_line_of(index as nat, shown@),
{
    let mut line = "(".to_owned();
    line.append(string_of(&decimal_of(index + 1)).as_str());
    line.append(") ");
    line.append(shown);
    line
}

/// Whether the text `a` stands before `b`, or is `b`, in the order of the
/// dictionary by the numbers of the characters.
pub open spec fn precedes(a: Seq<char>, b: Seq<char>) -> bool
    decreases a.len(),
{
    if a.len() == 0 {
        true
    } else if b.len() == 0 {
        false
    } else if a[0] as u32 != b[0] as u32 {
        (a[0] as u32) < (b[0] as u32)
    } else {
        precedes(a.drop_first(), b.drop_first())
    }
}

/// Whether the text `a` stands before `b`, or is `b`, in the order of the
/// dictionary.
pub fn stands_before(a: &Vec<char>, b: &Vec<char>) -> (r: bool)
    ensures
        r == precedes(a@, b@),
{
    let mut i: usize = 0;
    assert(a@.skip(0) == a@);
    assert(b@.skip(0) == b@);
    while i < a.len() && i < b.len()
        invariant
            i <= a.len(),
            i <= b.len(),
            precedes(a@, b@) == precedes(a@.skip(i as int), b@.skip(i as int)),
        decreases a.len() - i,
    {
        let x: u32 = a[i] as u32;
        let y: u32 = b[i] as u32;
        proof {
            assert(a@.skip(i as int)[0] == a@[i as int]);
            assert(b@.skip(i as int)[0] == b@[i as int]);
            assert(a@.skip(i as int).drop_first() == a@.skip(i + 1));
            assert(b@.skip(i as int).drop_first() == b@.skip(i + 1));
        }
        if x != y {
            return x < y;
        }
        i += 1;
    }
    i == a.len()
}

/// The texts, each with `tag` before it.
pub open spec fn tagged(tag: Seq<char>, names: Seq<Seq<char>>) -> Seq<Seq<char>> {
    Seq::new(names.len(), |i: int| tag + names[i])
}

/// What is said when a name selects more than one persona.
pub open spec fn ambiguous_text(label: Seq<char>, names: Seq<Seq<char>>) -> Seq<char> {
    joined(
        seq!["Ambiguous specifier for prompt, '"@ + label + "' could refer to:"@] + tagged(
            "\t "@,
            names,
        ),
        "\n"@,
    )
}

/// What is said when a name selects no persona.
pub open spec fn unknown_text(label: Seq<char>, names: Seq<Seq<char>>) -> Seq<char> {
    "No prompt matched '"@ + label + "'. Available prompts are:\n"@ + joined(
        tagged("\t"@, names),
        "\n"@,
    )
}

/// The names of personas.
pub open spec fn names_of(prompts: Seq<PromptView>) -> Seq<Seq<char>> {
    Seq::new(prompts.len(), |i: int| prompts[i].label)
}

/// Whether the texts stand in the order of the dictionary.
pub open spec fn in_order(names: Seq<Seq<char>>) -> bool {
    forall|i: int, j: int|
        0 <= i <= j < names.len() ==> precedes(#[trigger] names[i], #[trigger] names[j])
}

/// The order of the dictionary knows no two texts that each stand before
/// the other, compares any two texts, and is passed on.
pub proof fn lemma_precedes(a: Seq<char>, b: Seq<char>, c: Seq<char>)
    ensures
        precedes(a, a),
        precedes(a, b) || precedes(b, a),
        precedes(a, b) && precedes(b, c) ==> precedes(a, c),
    decreases a.len(),
{
    if a.len() > 0 {
        lemma_precedes(a.drop_first(), a.drop_first(), a.drop_first());
        if b.len() > 0 {
            lemma_precedes(a.drop_first(), b.drop_first(), b.drop_first());
            if c.len() > 0 {
                lemma_precedes(a.drop_first(), b.drop_first(), c.drop_first());
            }
        }
    }
}

/// The texts in the order of the dictionary.
pub fn sorted_names(names: Vec<Vec<char>>) -> (r: Vec<Vec<char>>)
    ensures
        in_order(views(r@)),
        views(r@).to_multiset() == views(names@).to_multiset(),
{
    let mut out: Vec<Vec<char>> = Vec::new();
    let mut i: usize = 0;
    assert(views(names@).take(0) == Seq::<Seq<char>>::empty());
    assert(views(out@) =~= Seq::<Seq<char>>::empty());
    while i < names.len()
        invariant
            i <= names.len(),
            in_order(views(out@)),
            views(out@).to_multiset() == views(names@).take(i as int).to_multiset(),
        decreases names.len() - i,
    {
        let name = slice(&names[i], 0, names[i].len());
        assert(name@ == names@[i as int]@);
        let mut pos: usize = out.len();
        while pos > 0 && !stands_before(&out[pos - 1], &name)
            invariant
                pos <= out.len(),
                forall|k: int| pos <= k < out.len() ==> !precedes(#[trigger] views(out@)[k], name@),
            decreases pos,
        {
            pos -= 1;
        }
        proof {
            let before = views(out@);
            let after = before.insert(pos as int, name@);
            assert(views(out@.insert(pos as int, name)) =~= after);
            assert forall|a: int, b: int| 0 <= a <= b < after.len() implies precedes(
                #[trigger] after[a],
                #[trigger] after[b],
            ) by {
                lemma_precedes(name@, name@, name@);
                if b < pos {
                    assert(precedes(before[a], before[b]));
                } else if a > pos {
                    assert(precedes(before[a - 1], before[b - 1]));
                } else if a == pos && b > pos {
                    assert(!precedes(before[b - 1], name@));
                    lemma_precedes(name@, before[b - 1], name@);
                } else if a < pos && b == pos {
                    assert(precedes(before[a], before[pos - 1]));
                    assert(precedes(before[pos - 1], name@));
                    lemma_precedes(before[a], before[pos - 1], name@);
                } else if a < pos && b > pos {
                    assert(precedes(before[a], before[b - 1]));
                }
            }
            let given = views(names@);
            assert(given.take(i + 1) =~= given.take(i as int).push(name@));
            vstd::seq_lib::to_multiset_build(given.take(i as int), name@);
            vstd::seq_lib::to_multiset_insert(before, pos as int, name@);
        }
        out.insert(pos, name);
        i += 1;
    }
    assert(views(names@).take(names.len() as int) == views(names@));
    out
}

/// The persona that a name selects. Without a name it is the default
/// persona. A name selects the personas whose names begin with it, where
/// upper and lower case are the same: one is the persona asked for, more
/// than one are refused with their names, and none is refused with the
/// names of all personas in the order of the dictionary.
pub fn choose_prompt(config: &Config, label: Option<&str>) -> (r: Result<PromptSetting, Error>)
    ensures
        label is None ==> r is Ok && r->Ok_0@ == PromptSetting::spec_default(),
        label matches Some(l) ==> {
            let found = matching(config@.prompts, l@);
            &&& r is Ok == (found.len() == 1)
            &&& r matches Ok(p) ==> p@ == (PromptModel {
                label: found[0].label,
                prompt: found[0].prompt,
                model: found[0].model,
                color: found[0].color,
            })
            &&& r matches Err(e) ==> e is CliError
            &&& (found.len() > 1 ==> (r matches Err(e) && e.detail() == ambiguous_text(
                l@,
                names_of(found),
            )))
            &&& (found.len() == 0 ==> (r matches Err(e) && exists|names: Seq<Seq<char>>|
                in_order(names) && names.to_multiset() == names_of(config@.prompts).to_multiset()
                    && e.detail() == unknown_text(l@, names)))
        },
{
    let label = match label {
        Some(l) => l,
        None => {
            return Ok(PromptSetting::default());
        },
    };
    let found = config.get_matching_prompts(label);
    let ghost found_views = prompt_ref_views(found@);
    if found.len() == 1 {
        assert(found_views[0] == found@[0]@);
        return Ok(found[0].setting());
    }
    if found.len() > 1 {
        let mut head = "Ambiguous specifier for prompt, '".to_owned();
        head.append(label);
        head.append("' could refer to:");
        let mut parts: Vec<Vec<char>> = Vec::new();
        parts.push(chars_of(head.as_str()));
        let ghost first = views(parts@);
        let ghost names = names_of(found_views);
        let mut i: usize = 0;
        assert(views(parts@) =~= first + tagged("\t "@, names.take(0)));
        while i < found.len()
            invariant
                i <= found.len(),
                found_views == prompt_ref_views(found@),
                names == names_of(found_views),
                views(parts@) == first + tagged("\t "@, names.take(i as int)),
            decreases found.len() - i,
        {
            let mut entry = "\t ".to_owned();
            entry.append(found[i].label());
            let part = chars_of(entry.as_str());
            proof {
                assert(found_views[i as int] == found@[i as int]@);
                assert(names[i as int] == found_views[i as int].label);
                assert(views(parts@.push(part)) =~= views(parts@).push(part@));
                assert(names.take(i + 1) =~= names.take(i as int).push(names[i as int]));
                assert(tagged("\t "@, names.take(i as int).push(names[i as int])) =~= tagged(
                    "\t "@,
                    names.take(i as int),
                ).push("\t "@ + names[i as int]));
                assert((first + tagged("\t "@, names.take(i as int))).push(part@) =~= first + tagged(
                    "\t "@,
                    names.take(i as int),
                ).push(part@));
            }
            parts.push(part);
            i += 1;
        }
        assert(names.take(found.len() as int) =~= names);
        let sep = chars_of("\n");
        let text = string_of(&join(&parts, &sep));
        assert(first =~= seq!["Ambiguous specifier for prompt, '"@ + label@ + "' could refer to:"@]);
        return Err(Error::CliError(text));
    }
    let all = config.prompts();
    let ghost all_views = prompt_ref_views(all@);
    let mut names: Vec<Vec<char>> = Vec::new();
    let mut i: usize = 0;
    while i < all.len()
        invariant
            i <= all.len(),
            all_views == prompt_ref_views(all@),
            views(names@) == names_of(all_views).take(i as int),
        decreases all.len() - i,
    {
        let name = chars_of(all[i].label());
        proof {
            assert(all_views[i as int] == all@[i as int]@);
            assert(names_of(all_views)[i as int] == all_views[i as int].label);
            assert(views(names@.push(name)) =~= views(names@).push(name@));
            assert(names_of(all_views).take(i + 1) =~= names_of(all_views).take(i as int).push(
                names_of(all_views)[i as int],
            ));
        }
        names.push(name);
        i += 1;
    }
    assert(names_of(all_views).take(all.len() as int) =~= names_of(all_views));
    let sorted = sorted_names(names);
    let ghost listed = views(sorted@);
    let mut entries: Vec<Vec<char>> = Vec::new();
    let mut k: usize = 0;
    assert(views(entries@) =~= tagged("\t"@, listed.take(0)));
    while k < sorted.len()
        invariant
            k <= sorted.len(),
            listed == views(sorted@),
            views(entries@) == tagged("\t"@, listed.take(k as int)),
        decreases sorted.len() - k,
    {
        let mut entry = chars_of("\t");
        crate::text::extend(&mut entry, &sorted[k]);
        proof {
            assert(listed[k as int] == sorted@[k as int]@);
            assert(views(entries@.push(entry)) =~= views(entries@).push(entry@));
            assert(listed.take(k + 1) =~= listed.take(k as int).push(listed[k as int]));
            assert(tagged("\t"@, listed.take(k as int).push(listed[k as int])) =~= tagged(
                "\t"@,
                listed.take(k as int),
            ).push("\t"@ + listed[k as int]));
        }
        entries.push(entry);
        k += 1;
    }
    assert(listed.take(sorted.len() as int) =~= listed);
    let sep = chars_of("\n");
    let mut text = "No prompt matched '".to_owned();
    text.append(label);
    text.append("'. Available prompts are:\n");
    text.append(string_of(&join(&entries, &sep)).as_str());
    Err(Error::CliError(text))
}

} // verus!
