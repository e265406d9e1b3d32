//! What holds of names, of the tree and of its traversal, whatever the input.

use crate::directory::{path_of, paths_of, resolution};
use crate::graph::{
    ancestors, bfs_order, breadth_first_order, children_of, edges_in_bounds, first_orphan,
    first_repeat, is_orphan, is_repeat, is_root, is_tree, lemma_children_in_bounds,
    lemma_first_named, lemma_undiscovered_within, parent_index, parents_of, roots, tree_edges,
    tree_of, undiscovered, ResolveFailure,
};
use crate::node::name::{
    check_word, classify, is_lowercase_word, is_stripped, mismatches, non_ascii_words, scan,
    strip, tokens, well_cased, CaseMismatch, CasedWord, ParseFailure,
};
use crate::node::NodeView;
use crate::text::{is_space, lower, upper, upper_char};
use vstd::prelude::*;
use vstd::utf8::is_ascii_chars;

verus! {

/// Whether `s` is one word: not empty, and without whitespace and
/// stripped punctuation.
pub open spec fn is_word(s: Seq<char>) -> bool {
    &&& s.len() > 0
    &&& forall|i: int| 0 <= i < s.len() ==> !is_space(#[trigger] s[i]) && !is_stripped(s[i])
}

/// Nothing is stripped from text without stripped punctuation.
pub proof fn lemma_strip_nothing(s: Seq<char>)
    requires
        forall|i: int| 0 <= i < s.len() ==> !is_stripped(#[trigger] s[i]),
    ensures
        strip(s) == s,
    decreases s.len(),
{
    reveal(Seq::filter);
    if s.len() > 0 {
        lemma_strip_nothing(s.drop_last());
        assert(s.drop_last().push(s.last()) =~= s);
    }
}

/// Text without whitespace is scanned as one open word.
pub proof fn lemma_scan_word(s: Seq<char>)
    requires
        forall|i: int| 0 <= i < s.len() ==> !is_space(#[trigger] s[i]),
    ensures
        scan(s) == (Seq::<Seq<char>>::empty(), s),
    decreases s.len(),
{
    if s.len() > 0 {
        lemma_scan_word(s.drop_last());
        assert(s.drop_last().push(s.last()) =~= s);
    }
}

/// A word is the only word of itself.
pub proof fn law_word_is_one_token(s: Seq<char>)
    requires
        is_word(s),
    ensures
        tokens(s) == seq![s],
{
    lemma_strip_nothing(s);
    lemma_scan_word(s);
    assert(Seq::<Seq<char>>::empty().push(s) =~= seq![s]);
}

/// A word of ASCII characters is classified as the rules of casing say of
/// it alone.
pub proof fn law_classify_word(s: Seq<char>)
    requires
        is_word(s),
        is_ascii_chars(s),
    ensures
        classify(s) == match check_word(s) {
            Ok(word) => Ok::<Seq<CasedWord>, ParseFailure>(seq![word]),
            Err(mismatch) => Err::<Seq<CasedWord>, ParseFailure>(
                ParseFailure::IncorrectlyCasedWords(seq![mismatch]),
            ),
        },
{
    law_word_is_one_token(s);
    let words = seq![s];
    assert(words.drop_last() =~= Seq::<Seq<char>>::empty());
    assert(words.last() == s);
    assert(non_ascii_words(words).len() == 0) by {
        reveal(Seq::filter);
        assert(non_ascii_words(words.drop_last()).len() == 0);
    }
    assert(mismatches(words.drop_last()) =~= Seq::<CaseMismatch>::empty());
    assert(well_cased(words.drop_last()) =~= Seq::<CasedWord>::empty());
    match check_word(s) {
        Ok(word) => {
            assert(mismatches(words) =~= Seq::<CaseMismatch>::empty());
            assert(well_cased(words) =~= seq![word]);
        },
        Err(mismatch) => {
            assert(mismatches(words) =~= seq![mismatch]);
        },
    }
}

/// `w` with its first character in uppercase.
pub open spec fn capitalize(w: Seq<char>) -> Seq<char> {
    w.update(0, upper_char(w[0]))
}

/// What the words that are written in lowercase are made of: lowercase
/// letters, at least two.
pub proof fn lemma_lowercase_words_are_lowercase(w: Seq<char>)
    requires
        is_lowercase_word(w),
    ensures
        w.len() >= 2,
        forall|i: int| 0 <= i < w.len() ==> 'a' <= #[trigger] w[i] <= 'z',
{
    reveal_strlit("and");
    reveal_strlit("like");
    reveal_strlit("the");
    reveal_strlit("of");
    reveal_strlit("or");
    reveal_strlit("with");
}

/// Each of the words that are written in lowercase is a name of one
/// lowercase word; with its first letter in uppercase it is no name, and
/// the one finding says that the lowercase word was expected.
pub proof fn law_lowercase_words(w: Seq<char>)
    requires
        is_lowercase_word(w),
    ensures
        classify(w) == Ok::<Seq<CasedWord>, ParseFailure>(seq![CasedWord::Lower(w)]),
        classify(capitalize(w)) == Err::<Seq<CasedWord>, ParseFailure>(
            ParseFailure::IncorrectlyCasedWords(
                seq![
                    CaseMismatch {
                        found: capitalize(w),
                        expected: w,
                        reason: "the word is in the lowercase list"@,
                    },
                ],
            ),
        ),
{
    lemma_lowercase_words_are_lowercase(w);
    let c = capitalize(w);
    assert(lower(w) =~= w);
    assert(lower(c) =~= w);
    assert(c[0] != w[0]);
    assert(is_word(w));
    assert(is_word(c));
    assert(is_ascii_chars(w));
    assert(is_ascii_chars(c));
    law_classify_word(w);
    law_classify_word(c);
}

/// A word of ASCII characters without lowercase letters is a name of one
/// uppercase word, unless it is in lowercase one of the words that are
/// written in lowercase.
pub proof fn law_uppercase_words(w: Seq<char>)
    requires
        is_word(w),
        is_ascii_chars(w),
        upper(w) == w,
        !is_lowercase_word(lower(w)),
    ensures
        classify(w) == Ok::<Seq<CasedWord>, ParseFailure>(seq![CasedWord::Upper(w)]),
{
    law_classify_word(w);
}

/// The words that end while text without stripped punctuation is scanned
/// are words, and the open word holds no whitespace.
pub proof fn lemma_scan_gives_words(s: Seq<char>)
    requires
        forall|i: int| 0 <= i < s.len() ==> !is_stripped(#[trigger] s[i]),
    ensures
        forall|k: int| 0 <= k < scan(s).0.len() ==> is_word(#[trigger] scan(s).0[k]),
        forall|j: int|
            0 <= j < scan(s).1.len() ==> !is_space(#[trigger] scan(s).1[j]) && !is_stripped(
                scan(s).1[j],
            ),
    decreases s.len(),
{
    if s.len() > 0 {
        let before = s.drop_last();
        assert forall|i: int| 0 <= i < before.len() implies !is_stripped(#[trigger] before[i]) by {
            assert(before[i] == s[i]);
        }
        lemma_scan_gives_words(before);
        let (done, word) = scan(before);
        assert(!is_stripped(s[s.len() - 1]));
        if !is_space(s.last()) {
            assert forall|j: int| 0 <= j < scan(s).1.len() implies !is_space(
                #[trigger] scan(s).1[j],
            ) && !is_stripped(scan(s).1[j]) by {
                if j < word.len() {
                    assert(scan(s).1[j] == word[j]);
                }
            }
        } else if word.len() > 0 {
            assert forall|k: int| 0 <= k < scan(s).0.len() implies is_word(
                #[trigger] scan(s).0[k],
            ) by {
                if k < done.len() {
                    assert(scan(s).0[k] == done[k]);
                } else {
                    assert(scan(s).0[k] == word);
                }
            }
        }
    }
}

/// Every word of a raw name is a word.
pub proof fn law_tokens_are_words(raw: Seq<char>)
    ensures
        forall|k: int| 0 <= k < tokens(raw).len() ==> is_word(#[trigger] tokens(raw)[k]),
{
    let s = strip(raw);
    assert forall|i: int| 0 <= i < s.len() implies !is_stripped(#[trigger] s[i]) by {
        raw.lemma_filter_pred(|c: char| !is_stripped(c), i);
    }
    lemma_scan_gives_words(s);
}

/// Of the words, each breaks the rules of casing or follows them; where
/// none breaks them, each has the casing that the rules give it.
pub proof fn lemma_well_cased(words: Seq<Seq<char>>)
    ensures
        mismatches(words).len() + well_cased(words).len() == words.len(),
        mismatches(words).len() == 0 ==> forall|i: int|
            0 <= i < words.len() ==> check_word(#[trigger] words[i]) == Ok::<
                CasedWord,
                CaseMismatch,
            >(well_cased(words)[i]),
    decreases words.len(),
{
    if words.len() > 0 {
        lemma_well_cased(words.drop_last());
        if mismatches(words).len() == 0 {
            assert forall|i: int| 0 <= i < words.len() implies check_word(#[trigger] words[i])
                == Ok::<CasedWord, CaseMismatch>(well_cased(words)[i]) by {
                if i < words.len() - 1 {
                    assert(words.drop_last()[i] == words[i]);
                }
            }
        }
    }
}

/// Every word that breaks the rules of casing is among the mismatches.
pub proof fn lemma_mismatches_complete(words: Seq<Seq<char>>, i: int)
    requires
        0 <= i < words.len(),
        check_word(words[i]) is Err,
    ensures
        mismatches(words).contains(check_word(words[i])->Err_0),
    decreases words.len(),
{
    let m = check_word(words[i])->Err_0;
    if i == words.len() - 1 {
        assert(mismatches(words).last() == m);
    } else {
        assert(words.drop_last()[i] == words[i]);
        lemma_mismatches_complete(words.drop_last(), i);
        let rest = mismatches(words.drop_last());
        let k = choose|k: int| 0 <= k < rest.len() && rest[k] == m;
        assert(mismatches(words)[k] == m);
    }
}

/// A name holds one cased word for each of its words, and each has the
/// casing that the rules give to its word; every word is of ASCII
/// characters.
pub proof fn law_names_follow_the_rules(raw: Seq<char>)
    requires
        classify(raw) is Ok,
    ensures
        classify(raw)->Ok_0.len() == tokens(raw).len(),
        forall|i: int|
            0 <= i < tokens(raw).len() ==> is_ascii_chars(#[trigger] tokens(raw)[i])
                && check_word(tokens(raw)[i]) == Ok::<CasedWord, CaseMismatch>(
                classify(raw)->Ok_0[i],
            ),
{
    let words = tokens(raw);
    lemma_well_cased(words);
    assert forall|i: int| 0 <= i < words.len() implies is_ascii_chars(#[trigger] words[i]) by {
        if !is_ascii_chars(words[i]) {
            words.lemma_filter_contains(|w: Seq<char>| !is_ascii_chars(w), i);
        }
    }
}

/// Where a raw name is refused, every word at fault is reported: every
/// word that holds a character outside ASCII, or else every word that
/// breaks the rules of casing.
pub proof fn law_failures_are_complete(raw: Seq<char>, i: int)
    requires
        0 <= i < tokens(raw).len(),
    ensures
        !is_ascii_chars(tokens(raw)[i]) ==> classify(raw) == Err::<Seq<CasedWord>, ParseFailure>(
            ParseFailure::NonAsciiWords(non_ascii_words(tokens(raw))),
        ) && non_ascii_words(tokens(raw)).contains(tokens(raw)[i]),
        non_ascii_words(tokens(raw)).len() == 0 && check_word(tokens(raw)[i]) is Err
            ==> classify(raw) == Err::<Seq<CasedWord>, ParseFailure>(
            ParseFailure::IncorrectlyCasedWords(mismatches(tokens(raw))),
        ) && mismatches(tokens(raw)).contains(check_word(tokens(raw)[i])->Err_0),
{
    let words = tokens(raw);
    if !is_ascii_chars(words[i]) {
        words.lemma_filter_contains(|w: Seq<char>| !is_ascii_chars(w), i);
    }
    if check_word(words[i]) is Err {
        lemma_mismatches_complete(words, i);
    }
}

/// Where no name is repeated among the first `k` nodes, none of them has
/// the name of a node before it.
pub proof fn lemma_no_repeat(nodes: Seq<NodeView>, k: int)
    requires
        first_repeat(nodes, k) is None,
    ensures
        forall|j: int| 0 <= j < k ==> !#[trigger] is_repeat(nodes, j),
    decreases k,
{
    if k > 0 {
        lemma_no_repeat(nodes, k - 1);
    }
}

/// Where none of the first `k` nodes is an orphan, none is.
pub proof fn lemma_no_orphan(nodes: Seq<NodeView>, k: int)
    requires
        first_orphan(nodes, k) is None,
    ensures
        forall|i: int| 0 <= i < k ==> !#[trigger] is_orphan(nodes, i),
    decreases k,
{
    if k > 0 {
        lemma_no_orphan(nodes, k - 1);
    }
}

/// The roots among the first `k` nodes are those that have no parent.
pub proof fn lemma_roots_members(nodes: Seq<NodeView>, k: int)
    ensures
        forall|t: int| 0 <= t < roots(nodes, k).len() ==> 0 <= #[trigger] roots(nodes, k)[t] < k,
        forall|i: int| 0 <= i < k ==> (is_root(nodes, i) <==> #[trigger] roots(nodes, k).contains(i)),
    decreases k,
{
    if k > 0 {
        lemma_roots_members(nodes, k - 1);
        let before = roots(nodes, k - 1);
        let now = roots(nodes, k);
        assert forall|i: int| 0 <= i < k implies (is_root(nodes, i) <==> #[trigger] now.contains(
            i,
        )) by {
            if is_root(nodes, k - 1) {
                if i == k - 1 {
                    assert(now[now.len() - 1] == i);
                } else if before.contains(i) {
                    let t = choose|t: int| 0 <= t < before.len() && before[t] == i;
                    assert(now[t] == i);
                } else if now.contains(i) {
                    let t = choose|t: int| 0 <= t < now.len() && now[t] == i;
                    assert(before[t] == i);
                }
            } else if i == k - 1 {
                if now.contains(i) {
                    let t = choose|t: int| 0 <= t < now.len() && now[t] == i;
                }
            }
        }
    }
}

/// Into each of the first `k` nodes that is no root goes one of the edges
/// of the tree, from its parent; into every other node goes none.
pub proof fn lemma_tree_edges(nodes: Seq<NodeView>, k: int, i: int)
    requires
        0 <= k <= nodes.len(),
        first_orphan(nodes, k) is None,
    ensures
        edges_in_bounds(tree_edges(nodes, k), nodes.len() as int),
        parents_of(tree_edges(nodes, k), i) == if 0 <= i < k && !is_root(nodes, i) {
            seq![parent_index(nodes, i)->0]
        } else {
            Seq::<int>::empty()
        },
    decreases k,
{
    if k > 0 {
        lemma_tree_edges(nodes, k - 1, i);
        if !is_root(nodes, k - 1) {
            let before = tree_edges(nodes, k - 1);
            let p = parent_index(nodes, k - 1)->0;
            lemma_first_named(nodes, nodes.len() as int, nodes[k - 1].parent);
            let now = before.push((p, k - 1));
            assert(now.drop_last() =~= before);
            assert(now.last() == (p, k - 1));
            if i == k - 1 {
                assert(parents_of(now, i) =~= seq![p]);
            }
            assert forall|e: int| 0 <= e < now.len() implies 0 <= (#[trigger] now[e]).0
                < nodes.len() && 0 <= now[e].1 < nodes.len() by {
                if e < before.len() {
                    assert(now[e] == before[e]);
                }
            }
        }
    }
}

/// The nodes with the edges and the root of the tree over them are a tree.
pub proof fn law_built_tree_is_tree(nodes: Seq<NodeView>)
    requires
        tree_of(nodes) is Ok,
    ensures
        is_tree(nodes, tree_of(nodes)->Ok_0.edges, tree_of(nodes)->Ok_0.root),
{
    let n = nodes.len() as int;
    let shape = tree_of(nodes)->Ok_0;
    let root = shape.root;
    lemma_no_repeat(nodes, n);
    lemma_no_orphan(nodes, n);
    lemma_roots_members(nodes, n);
    assert(roots(nodes, n).len() == 1);
    assert(roots(nodes, n)[0] == root);
    assert forall|i: int, j: int| 0 <= i < j < nodes.len() implies (#[trigger] nodes[i]).name != (
    #[trigger] nodes[j]).name by {
        assert(!is_repeat(nodes, j));
        lemma_first_named(nodes, j, nodes[j].name);
    }
    assert forall|i: int| 0 <= i < nodes.len() implies (#[trigger] is_root(nodes, i) <==> i
        == root) by {
        if roots(nodes, n).contains(i) {
            let t = choose|t: int| 0 <= t < roots(nodes, n).len() && roots(nodes, n)[t] == i;
        }
        assert(roots(nodes, n).contains(root));
    }
    assert forall|i: int| 0 <= i < nodes.len() && i != root implies {
        &&& (#[trigger] parent_index(nodes, i)) is Some
        &&& 0 <= parent_index(nodes, i)->0 < nodes.len()
        &&& nodes[parent_index(nodes, i)->0].name == nodes[i].parent
    } by {
        assert(!is_orphan(nodes, i));
        assert(!is_root(nodes, i));
        lemma_first_named(nodes, n, nodes[i].parent);
    }
    lemma_tree_edges(nodes, n, 0);
    assert forall|i: int| 0 <= i < nodes.len() implies #[trigger] parents_of(shape.edges, i)
        == if i == root {
        Seq::<int>::empty()
    } else {
        seq![parent_index(nodes, i)->0]
    } by {
        lemma_tree_edges(nodes, n, i);
        assert(is_root(nodes, i) <==> i == root);
    }
}

/// In a tree the way from a node up to the root never meets a node with
/// two parents, nor one without a parent that is not the root: it is
/// followed to the root, or given up as longer than the tree has nodes.
pub proof fn law_tree_has_one_way_up(
    nodes: Seq<NodeView>,
    edges: Seq<(int, int)>,
    root: int,
    node: int,
    steps: nat,
)
    requires
        is_tree(nodes, edges, root),
        0 <= node < nodes.len(),
    ensures
        match ancestors(nodes, edges, root, node, steps) {
            Ok(chain) => true,
            Err(ResolveFailure::CycleDetected(name)) => true,
            Err(_) => false,
        },
    decreases steps,
{
    let parents = parents_of(edges, node);
    if parents.len() == 1 && steps > 0 {
        assert(node != root);
        assert(parent_index(nodes, node) is Some);
        law_tree_has_one_way_up(nodes, edges, root, parents[0], (steps - 1) as nat);
    }
}

/// A way up that is followed to the root in some number of steps is
/// followed to the root in any greater number of steps, and is the same.
pub proof fn lemma_more_steps(
    nodes: Seq<NodeView>,
    edges: Seq<(int, int)>,
    root: int,
    node: int,
    k: nat,
    m: nat,
)
    requires
        ancestors(nodes, edges, root, node, k) is Ok,
        k <= m,
    ensures
        ancestors(nodes, edges, root, node, m) == ancestors(nodes, edges, root, node, k),
    decreases k,
{
    let parents = parents_of(edges, node);
    if parents.len() == 1 {
        lemma_more_steps(nodes, edges, root, parents[0], (k - 1) as nat, (m - 1) as nat);
    }
}

/// A child of a node has the node among its parents.
pub proof fn lemma_child_has_parent(edges: Seq<(int, int)>, node: int, child: int)
    requires
        children_of(edges, node).contains(child),
    ensures
        parents_of(edges, child).contains(node),
    decreases edges.len(),
{
    if edges.len() > 0 {
        let before = edges.drop_last();
        let children = children_of(edges, node);
        let k = choose|k: int| 0 <= k < children.len() && children[k] == child;
        if edges.last().0 == node && k == 0 {
            assert(parents_of(edges, child)[0] == node);
        } else {
            if edges.last().0 == node {
                assert(children_of(before, node)[k - 1] == child);
            } else {
                assert(children_of(before, node)[k] == child);
            }
            lemma_child_has_parent(before, node, child);
            let parents = parents_of(before, child);
            let j = choose|j: int| 0 <= j < parents.len() && parents[j] == node;
            if edges.last().1 == child {
                assert(parents_of(edges, child)[j + 1] == node);
            } else {
                assert(parents_of(edges, child)[j] == node);
            }
        }
    }
}

/// In a tree, where the way up from each node that waits is followed to
/// the root in `done` steps, the way up from every node that the traversal
/// returns in `steps` more steps is followed to the root in `done + steps`
/// steps.
pub proof fn lemma_traversal_resolves(
    nodes: Seq<NodeView>,
    edges: Seq<(int, int)>,
    root: int,
    queue: Seq<int>,
    discovered: Set<int>,
    steps: nat,
    done: nat,
)
    requires
        is_tree(nodes, edges, root),
        forall|i: int|
            0 <= i < queue.len() ==> 0 <= #[trigger] queue[i] < nodes.len() && ancestors(
                nodes,
                edges,
                root,
                queue[i],
                done,
            ) is Ok,
    ensures
        forall|i: int|
            0 <= i < bfs_order(edges, queue, discovered, steps).len() ==> {
                let node = #[trigger] bfs_order(edges, queue, discovered, steps)[i];
                0 <= node < nodes.len() && ancestors(nodes, edges, root, node, done + steps) is Ok
            },
    decreases steps,
{
    if steps > 0 && queue.len() > 0 {
        let node = queue[0];
        let children = children_of(edges, node);
        let fresh = undiscovered(children, discovered);
        let next = queue.drop_first() + fresh;
        let seen = discovered.union(children.to_set());
        lemma_children_in_bounds(edges, nodes.len() as int, node);
        lemma_undiscovered_within(children, discovered);
        assert forall|i: int| 0 <= i < next.len() implies 0 <= #[trigger] next[i] < nodes.len()
            && ancestors(nodes, edges, root, next[i], done + 1) is Ok by {
            if i < queue.len() - 1 {
                assert(next[i] == queue[i + 1]);
                lemma_more_steps(nodes, edges, root, next[i], done, done + 1);
            } else {
                let child = next[i];
                assert(child == fresh[i - (queue.len() - 1)]);
                assert(children.contains(child));
                let k = choose|k: int| 0 <= k < children.len() && children[k] == child;
                lemma_child_has_parent(edges, node, child);
                let parents = parents_of(edges, child);
                let j = choose|j: int| 0 <= j < parents.len() && parents[j] == node;
                assert(child != root);
                assert(parents == seq![parent_index(nodes, child)->0]);
                assert(parents[0] == node);
            }
        }
        lemma_traversal_resolves(nodes, edges, root, next, seen, (steps - 1) as nat, done + 1);
        let order = bfs_order(edges, queue, discovered, steps);
        let rest = bfs_order(edges, next, seen, (steps - 1) as nat);
        assert forall|i: int| 0 <= i < order.len() implies {
            let y = #[trigger] order[i];
            0 <= y < nodes.len() && ancestors(nodes, edges, root, y, done + steps) is Ok
        } by {
            if i == 0 {
                lemma_more_steps(nodes, edges, root, node, done, done + steps);
            } else {
                assert(order[i] == rest[i - 1]);
            }
        }
    }
}

/// Where the path of every node of an order is found, the paths of the
/// order are found, one for each node.
pub proof fn lemma_paths_found(
    nodes: Seq<NodeView>,
    edges: Seq<(int, int)>,
    root: int,
    order: Seq<int>,
)
    requires
        forall|i: int| 0 <= i < order.len() ==> path_of(nodes, edges, root, #[trigger] order[i]) is Ok,
    ensures
        paths_of(nodes, edges, root, order) is Ok,
        paths_of(nodes, edges, root, order)->Ok_0.len() == order.len(),
        forall|i: int|
            0 <= i < order.len() ==> (#[trigger] paths_of(nodes, edges, root, order)->Ok_0[i])
                == (order[i], path_of(nodes, edges, root, order[i])->Ok_0),
    decreases order.len(),
{
    if order.len() > 0 {
        let before = order.drop_last();
        assert forall|i: int| 0 <= i < before.len() implies path_of(
            nodes,
            edges,
            root,
            #[trigger] before[i],
        ) is Ok by {
            assert(before[i] == order[i]);
        }
        lemma_paths_found(nodes, edges, root, before);
        assert(path_of(nodes, edges, root, order[order.len() - 1]) is Ok);
        let paths = paths_of(nodes, edges, root, order)->Ok_0;
        assert forall|i: int| 0 <= i < order.len() implies (#[trigger] paths[i]) == (
            order[i],
            path_of(nodes, edges, root, order[i])->Ok_0,
        ) by {
            if i < before.len() {
                assert(paths[i] == paths_of(nodes, edges, root, before)->Ok_0[i]);
                assert(before[i] == order[i]);
            }
        }
    }
}

/// The paths of a tree are always found: every node that the traversal
/// from the root reaches has its path, in the order of the traversal.
pub proof fn law_tree_resolves(nodes: Seq<NodeView>, edges: Seq<(int, int)>, root: int)
    requires
        is_tree(nodes, edges, root),
    ensures
        resolution(nodes, edges, root) is Ok,
        resolution(nodes, edges, root)->Ok_0.len() == breadth_first_order(
            edges,
            root,
            nodes.len(),
        ).len(),
        forall|i: int|
            0 <= i < breadth_first_order(edges, root, nodes.len()).len() ==> (
            #[trigger] resolution(nodes, edges, root)->Ok_0[i]) == (
                breadth_first_order(edges, root, nodes.len())[i],
                path_of(
                    nodes,
                    edges,
                    root,
                    breadth_first_order(edges, root, nodes.len())[i],
                )->Ok_0,
            ),
{
    let order = breadth_first_order(edges, root, nodes.len());
    assert(parents_of(edges, root).len() == 0);
    assert(ancestors(nodes, edges, root, root, 0) is Ok);
    lemma_traversal_resolves(nodes, edges, root, seq![root], set![root], nodes.len(), 0);
    assert forall|i: int| 0 <= i < order.len() implies path_of(
        nodes,
        edges,
        root,
        #[trigger] order[i],
    ) is Ok by {
        assert(ancestors(nodes, edges, root, order[i], 0 + nodes.len()) is Ok);
    }
    lemma_paths_found(nodes, edges, root, order);
}

/// What is in a sequence with one more item in front.
pub proof fn lemma_contains_cons(x: int, s: Seq<int>, y: int)
    ensures
        (seq![x] + s).contains(y) <==> (y == x || s.contains(y)),
{
    let t = seq![x] + s;
    if y == x {
        assert(t[0] == y);
    }
    if s.contains(y) {
        let k = choose|k: int| 0 <= k < s.len() && s[k] == y;
        assert(t[k + 1] == y);
    }
    if t.contains(y) {
        let k = choose|k: int| 0 <= k < t.len() && t[k] == y;
        if k > 0 {
            assert(s[k - 1] == y);
        }
    }
}

/// What is in a sequence without its first item.
pub proof fn lemma_contains_rest(s: Seq<int>, y: int)
    requires
        s.len() > 0,
    ensures
        s.contains(y) <==> (y == s[0] || s.drop_first().contains(y)),
{
    assert(seq![s[0]] + s.drop_first() =~= s);
    lemma_contains_cons(s[0], s.drop_first(), y);
}

/// The nodes that are newly discovered were not discovered, none of them
/// is discovered twice, and with them as many nodes more are discovered;
/// they are the offered nodes that were not discovered.
pub proof fn lemma_undiscovered(next: Seq<int>, discovered: Set<int>)
    requires
        discovered.finite(),
    ensures
        undiscovered(next, discovered).no_duplicates(),
        forall|k: int|
            0 <= k < undiscovered(next, discovered).len() ==> !discovered.contains(
                #[trigger] undiscovered(next, discovered)[k],
            ),
        discovered.union(next.to_set()) == discovered.union(
            undiscovered(next, discovered).to_set(),
        ),
        discovered.union(next.to_set()).finite(),
        discovered.union(next.to_set()).len() == discovered.len() + undiscovered(
            next,
            discovered,
        ).len(),
    decreases next.len(),
{
    let found = undiscovered(next, discovered);
    if next.len() == 0 {
        assert(discovered.union(next.to_set()) =~= discovered);
    } else {
        let x = next[0];
        let rest = next.drop_first();
        if discovered.contains(x) {
            lemma_undiscovered(rest, discovered);
            assert forall|y: int| discovered.union(next.to_set()).contains(y)
                == discovered.union(rest.to_set()).contains(y) by {
                lemma_contains_rest(next, y);
            }
            assert(discovered.union(next.to_set()) =~= discovered.union(rest.to_set()));
        } else {
            let more = discovered.insert(x);
            let tail = undiscovered(rest, more);
            lemma_undiscovered(rest, more);
            assert(found == seq![x] + tail);
            assert forall|y: int| discovered.union(next.to_set()).contains(y) == more.union(
                rest.to_set(),
            ).contains(y) by {
                lemma_contains_rest(next, y);
            }
            assert(discovered.union(next.to_set()) =~= more.union(rest.to_set()));
            assert forall|y: int| discovered.union(found.to_set()).contains(y) == more.union(
                tail.to_set(),
            ).contains(y) by {
                lemma_contains_cons(x, tail, y);
            }
            assert(discovered.union(found.to_set()) =~= more.union(tail.to_set()));
            assert forall|i: int, j: int| 0 <= i < found.len() && 0 <= j < found.len() && i
                != j implies found[i] != found[j] by {
                if i > 0 {
                    assert(found[i] == tail[i - 1]);
                    assert(!more.contains(tail[i - 1]));
                }
                if j > 0 {
                    assert(found[j] == tail[j - 1]);
                    assert(!more.contains(tail[j - 1]));
                }
            }
            assert forall|k: int| 0 <= k < found.len() implies !discovered.contains(
                #[trigger] found[k],
            ) by {
                if k > 0 {
                    assert(found[k] == tail[k - 1]);
                    assert(!more.contains(tail[k - 1]));
                }
            }
        }
    }
}

/// Whether every member of `nodes` is one of the first `n` indices.
pub open spec fn within(nodes: Set<int>, n: nat) -> bool {
    forall|x: int| nodes.contains(x) ==> 0 <= x < n
}

/// A finite set of indices below `n` has at most `n` members.
pub proof fn lemma_at_most(nodes: Set<int>, n: nat)
    requires
        nodes.finite(),
        within(nodes, n),
    ensures
        nodes.len() <= n,
{
    let all = vstd::set_lib::set_int_range(0, n as int);
    vstd::set_lib::lemma_int_range(0, n as int);
    assert(nodes.subset_of(all));
    vstd::set_lib::lemma_len_subset(nodes, all);
}

/// A traversal that has as many steps as nodes wait and are not
/// discovered returns no more nodes in more steps: by then no node waits.
pub proof fn lemma_traversal_finishes(
    edges: Seq<(int, int)>,
    n: nat,
    queue: Seq<int>,
    discovered: Set<int>,
    steps: nat,
    more: nat,
)
    requires
        edges_in_bounds(edges, n as int),
        discovered.finite(),
        within(discovered, n),
        steps >= queue.len() + n - discovered.len(),
        steps <= more,
    ensures
        bfs_order(edges, queue, discovered, more) == bfs_order(edges, queue, discovered, steps),
    decreases steps,
{
    lemma_at_most(discovered, n);
    if queue.len() > 0 {
        let node = queue[0];
        let children = children_of(edges, node);
        let fresh = undiscovered(children, discovered);
        let next = queue.drop_first() + fresh;
        let seen = discovered.union(children.to_set());
        lemma_undiscovered(children, discovered);
        lemma_children_in_bounds(edges, n as int, node);
        assert forall|x: int| seen.contains(x) implies 0 <= x < n by {
            if !discovered.contains(x) {
                let k = choose|k: int| 0 <= k < children.len() && children[k] == x;
            }
        }
        lemma_traversal_finishes(edges, n, next, seen, (steps - 1) as nat, (more - 1) as nat);
    }
}

/// The traversal from the root of a graph of `n` nodes is over after `n`
/// steps: in more steps it returns the same nodes.
pub proof fn law_traversal_is_complete(edges: Seq<(int, int)>, root: int, n: nat, more: nat)
    requires
        edges_in_bounds(edges, n as int),
        0 <= root < n,
        n <= more,
    ensures
        bfs_order(edges, seq![root], set![root], more) == breadth_first_order(edges, root, n),
{
    assert(set![root].len() == 1);
    lemma_traversal_finishes(edges, n, seq![root], set![root], n, more);
}

} // verus!
