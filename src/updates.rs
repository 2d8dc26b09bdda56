//! Parsing of the update-check tool's output: one
//! `<name> <old_version> -> <new_version>` line per pending update.
use vstd::prelude::*;
use crate::text::{chars_of, lines, split_lines, split_tokens, string_from, tokens, views};

verus! {

/// A pending update of one package.
pub struct Update {
    pub name: String,
    pub old_version: String,
    pub new_version: String,
}

pub ghost struct UpdateModel {
    pub name: Seq<char>,
    pub old_version: Seq<char>,
    pub new_version: Seq<char>,
}

impl View for Update {
    type V = UpdateModel;

    open spec fn view(&self) -> UpdateModel {
        UpdateModel {
            name: self.name@,
            old_version: self.old_version@,
            new_version: self.new_version@,
        }
    }
}

/// The update a line describes: its first, second and fourth tokens, where it
/// has at least four.
pub open spec fn update_of_line(line: Seq<char>) -> Option<UpdateModel> {
    let t = tokens(line);
    if t.len() >= 4 {
        Some(UpdateModel { name: t[0], old_version: t[1], new_version: t[3] })
    } else {
        None
    }
}

/// The updates described by a sequence of lines, in line order.
pub open spec fn updates_of_lines(ls: Seq<Seq<char>>) -> Seq<UpdateModel>
    decreases ls.len(),
{
    if ls.len() == 0 {
        Seq::empty()
    } else {
        let p = updates_of_lines(ls.drop_last());
        match update_of_line(ls.last()) {
            Some(u) => p.push(u),
            None => p,
        }
    }
}

/// The updates described by a tool output.
pub open spec fn updates_of(text: Seq<char>) -> Seq<UpdateModel> {
    updates_of_lines(lines(text))
}

pub open spec fn update_views(v: Seq<Update>) -> Seq<UpdateModel> {
    v.map_values(|u: Update| u@)
}

/// Parses update-check output; lines with fewer than four tokens are skipped.
pub fn parse_updates(output: &str) -> (r: Vec<Update>)
    ensures
        update_views(r@) == updates_of(output@),
{
    let cs = chars_of(output);
    let ls = split_lines(&cs);
    let mut r: Vec<Update> = Vec::new();
    let mut i: usize = 0;
    while i < ls.len()
        invariant
            i <= ls@.len(),
            views(ls@) == lines(output@),
            update_views(r@) == updates_of_lines(views(ls@).subrange(0, i as int)),
        decreases ls@.len() - i,
    {
        let ghost pre = views(ls@).subrange(0, i + 1);
        assert(pre.drop_last() =~= views(ls@).subrange(0, i as int));
        assert(pre.last() == ls@[i as int]@);
        let t = split_tokens(&ls[i]);
        if t.len() >= 4 {
            let u = Update {
                name: string_from(&t[0]),
                old_version: string_from(&t[1]),
                new_version: string_from(&t[3]),
            };
            let ghost r0 = update_views(r@);
            r.push(u);
            assert(update_views(r@) =~= r0.push(u@));
        }
        i = i + 1;
    }
    assert(views(ls@).subrange(0, ls@.len() as int) =~= views(ls@));
    r
}

} // verus!
