use vstd::prelude::*;

verus! {

/// The views of strings.
pub open spec fn texts_view(texts: Seq<String>) -> Seq<Seq<char>> {
    texts.map_values(|s: String| s@)
}

/// Each text followed by `sep`, in order.
pub open spec fn each_followed_by(texts: Seq<Seq<char>>, sep: Seq<char>) -> Seq<char>
    decreases texts.len(),
{
    if texts.len() == 0 {
        Seq::empty()
    } else {
        each_followed_by(texts.drop_last(), sep) + texts.last() + sep
    }
}

/// Appends each of `texts`, each followed by `sep`.
pub fn append_each_followed_by(text: &mut String, texts: &Vec<String>, sep: &str)
    ensures
        final(text)@ == old(text)@ + each_followed_by(texts_view(texts@), sep@),
{
    let ghost start = text@;
    let ghost all = texts_view(texts@);
    let mut i: usize = 0;
    assert(all.take(0) =~= Seq::<Seq<char>>::empty());
    assert(start + each_followed_by(all.take(0), sep@) =~= start);
    while i < texts.len()
        invariant
            all == texts_view(texts@),
            i <= texts.len(),
            text@ == start + each_followed_by(all.take(i as int), sep@),
        decreases texts.len() - i,
    {
        let ghost before = text@;
        text.append(texts[i].as_str());
        text.append(sep);
        proof {
            assert(all.take(i + 1).drop_last() =~= all.take(i as int));
            assert(all.take(i + 1).last() == texts@[i as int]@);
            assert(text@ =~= start + each_followed_by(all.take(i + 1), sep@));
        }
        i = i + 1;
    }
    assert(all.take(i as int) =~= all);
}


/// Each pair of texts joined with `middle` between them.
pub open spec fn pairs_joined(pairs: Seq<(String, String)>, middle: Seq<char>) -> Seq<Seq<char>> {
    pairs.map_values(|p: (String, String)| p.0@ + middle + p.1@)
}

/// Each pair of texts joined with `middle` between them.
pub fn join_pairs(pairs: &Vec<(String, String)>, middle: &str) -> (texts: Vec<String>)
    ensures
        texts_view(texts@) == pairs_joined(pairs@, middle@),
{
    let mut texts: Vec<String> = Vec::new();
    let mut i: usize = 0;
    while i < pairs.len()
        invariant
            i <= pairs.len(),
            texts_view(texts@) == pairs_joined(pairs@.take(i as int), middle@),
        decreases pairs.len() - i,
    {
        let mut t = String::from_str(pairs[i].0.as_str());
        t.append(middle);
        t.append(pairs[i].1.as_str());
        let ghost before = texts@;
        texts.push(t);
        proof {
            assert(texts_view(texts@) =~= texts_view(before).push(t@));
            assert(pairs_joined(pairs@.take(i + 1), middle@) =~= pairs_joined(pairs@.take(i as int), middle@).push(
                pairs@[i as int].0@ + middle@ + pairs@[i as int].1@,
            ));
        }
        i = i + 1;
    }
    assert(pairs@.take(i as int) =~= pairs@);
    texts
}

} // verus!
