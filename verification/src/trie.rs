//! The reserved-word and operator tries.
//!
//! Two immutable character tries are built once per compilation — one over
//! the keyword lexemes, one over the operator lexemes — and the scanner uses
//! them for longest-prefix matching. A trie is specified by the partial map
//! from character paths to nodes (`node_at`): a path exists exactly when it
//! is a prefix of some inserted lexeme, and carries a token kind exactly
//! when it is an inserted lexeme.

use vstd::prelude::*;

use crate::token::Keyword;
use crate::token::Operator;
use crate::token::TokenType;
use crate::token::keyword_chars;
use crate::token::operator_chars;

verus! {

/// One trie node: an optional terminal token kind, and labelled children.
#[derive(Debug)]
pub struct KeywordTree {
    pub token: Option<TokenType>,
    pub children: Vec<(char, Box<KeywordTree>)>,
}

/// The first child of `cs` labelled `c`, if any.
pub open spec fn find_child(cs: Seq<(char, Box<KeywordTree>)>, c: char) -> Option<KeywordTree>
    decreases cs.len(),
{
    if cs.len() == 0 {
        None
    } else if cs[0].0 == c {
        Some(*cs[0].1)
    } else {
        find_child(cs.drop_first(), c)
    }
}

/// The node reached from `n` by following the characters of `p`, if the
/// path exists.
pub open spec fn node_at(n: KeywordTree, p: Seq<char>) -> Option<KeywordTree>
    decreases p.len(),
{
    if p.len() == 0 {
        Some(n)
    } else {
        match find_child(n.children@, p[0]) {
            Some(m) => node_at(m, p.drop_first()),
            None => None,
        }
    }
}

/// Whether the path `p` exists in the trie rooted at `n`.
pub open spec fn trie_has(n: KeywordTree, p: Seq<char>) -> bool {
    node_at(n, p) is Some
}

/// The token kind stored at path `p`, if the path exists and is terminal.
pub open spec fn trie_tok(n: KeywordTree, p: Seq<char>) -> Option<TokenType> {
    match node_at(n, p) {
        Some(m) => m.token,
        None => None,
    }
}

/// The lexeme of a keyword or operator token kind.
pub open spec fn token_chars(tt: TokenType) -> Seq<char> {
    match tt {
        TokenType::Keyword(k) => keyword_chars(k),
        TokenType::Operator(o) => operator_chars(o),
        _ => Seq::empty(),
    }
}

/// `node_at` read one character at a time from the back: extending a path
/// by `c` descends from the path's node to its `c`-child.
pub proof fn lemma_node_at_snoc(n: KeywordTree, p: Seq<char>, c: char)
    ensures
        node_at(n, p.push(c)) == match node_at(n, p) {
            Some(m) => find_child(m.children@, c),
            None => None::<KeywordTree>,
        },
    decreases p.len(),
{
    let pc = p.push(c);
    assert(pc.len() == p.len() + 1);
    if p.len() == 0 {
        assert(pc.drop_first() =~= Seq::<char>::empty());
        assert(pc[0] == c);
        match find_child(n.children@, c) {
            Some(m) => {
                assert(node_at(n, pc) == node_at(m, pc.drop_first()));
                assert(node_at(m, pc.drop_first()) == Some(m));
            },
            None => {
                assert(node_at(n, pc) is None);
            },
        }
    } else {
        assert(pc[0] == p[0]);
        assert(pc.drop_first() =~= p.drop_first().push(c));
        match find_child(n.children@, p[0]) {
            Some(m) => {
                assert(node_at(n, pc) == node_at(m, pc.drop_first()));
                lemma_node_at_snoc(m, p.drop_first(), c);
                assert(node_at(m, p.drop_first().push(c)) == match node_at(m, p.drop_first()) {
                    Some(m2) => find_child(m2.children@, c),
                    None => None::<KeywordTree>,
                });
            },
            None => {
                assert(node_at(n, pc) is None);
                assert(node_at(n, p) is None);
            },
        }
    }
}

/// If `j` is the first index of `cs` labelled `c`, the child search finds it.
proof fn lemma_find_child_at(cs: Seq<(char, Box<KeywordTree>)>, c: char, j: int)
    requires
        0 <= j < cs.len(),
        cs[j].0 == c,
        forall|k: int| 0 <= k < j ==> (#[trigger] cs[k]).0 != c,
    ensures
        find_child(cs, c) == Some(*cs[j].1),
    decreases j,
{
    if j > 0 {
        lemma_find_child_at(cs.drop_first(), c, j - 1);
    }
}

/// If no entry of `cs` is labelled `c`, the child search fails.
proof fn lemma_find_child_none(cs: Seq<(char, Box<KeywordTree>)>, c: char)
    requires
        forall|k: int| 0 <= k < cs.len() ==> (#[trigger] cs[k]).0 != c,
    ensures
        find_child(cs, c) is None,
    decreases cs.len(),
{
    if cs.len() > 0 {
        lemma_find_child_none(cs.drop_first(), c);
    }
}

/// Replacing the first `c`-labelled entry changes only the `c` lookup.
proof fn lemma_find_child_update(
    cs: Seq<(char, Box<KeywordTree>)>,
    cs2: Seq<(char, Box<KeywordTree>)>,
    c: char,
    j: int,
)
    requires
        0 <= j < cs.len(),
        cs2.len() == cs.len(),
        cs[j].0 == c,
        cs2[j].0 == c,
        forall|k: int| 0 <= k < cs.len() && k != j ==> cs2[k] == cs[k],
        forall|k: int| 0 <= k < j ==> (#[trigger] cs[k]).0 != c,
    ensures
        forall|d: char| #[trigger] find_child(cs2, d) == if d == c {
            Some(*cs2[j].1)
        } else {
            find_child(cs, d)
        },
    decreases j,
{
    assert forall|d: char| #[trigger] find_child(cs2, d) == (if d == c {
        Some(*cs2[j].1)
    } else {
        find_child(cs, d)
    }) by {
        if d == c {
            lemma_find_child_at(cs2, c, j);
        } else {
            lemma_find_child_other(cs, cs2, c, j, d);
        }
    }
}

/// Helper for `lemma_find_child_update`: lookups of other labels are kept.
proof fn lemma_find_child_other(
    cs: Seq<(char, Box<KeywordTree>)>,
    cs2: Seq<(char, Box<KeywordTree>)>,
    c: char,
    j: int,
    d: char,
)
    requires
        0 <= j < cs.len(),
        cs2.len() == cs.len(),
        cs[j].0 == c,
        cs2[j].0 == c,
        forall|k: int| 0 <= k < cs.len() && k != j ==> cs2[k] == cs[k],
        d != c,
    ensures
        find_child(cs2, d) == find_child(cs, d),
    decreases cs.len(),
{
    if cs.len() > 0 {
        if j == 0 {
            assert(cs2.drop_first() =~= cs.drop_first());
        } else {
            assert(cs2[0] == cs[0]);
            if cs[0].0 != d {
                lemma_find_child_other(cs.drop_first(), cs2.drop_first(), c, j - 1, d);
            }
        }
    }
}

/// Appending an entry with a fresh label `c` adds only the `c` lookup.
proof fn lemma_find_child_push(cs: Seq<(char, Box<KeywordTree>)>, c: char, m: Box<KeywordTree>)
    requires
        forall|k: int| 0 <= k < cs.len() ==> (#[trigger] cs[k]).0 != c,
    ensures
        forall|d: char| #[trigger] find_child(cs.push((c, m)), d) == if d == c {
            Some(*m)
        } else {
            find_child(cs, d)
        },
{
    assert forall|d: char| #[trigger] find_child(cs.push((c, m)), d) == (if d == c {
        Some(*m)
    } else {
        find_child(cs, d)
    }) by {
        if d == c {
            lemma_find_child_at(cs.push((c, m)), c, cs.len() as int);
        } else {
            lemma_find_child_push_other(cs, c, m, d);
        }
    }
}

/// Helper for `lemma_find_child_push`: lookups of other labels are kept.
proof fn lemma_find_child_push_other(
    cs: Seq<(char, Box<KeywordTree>)>,
    c: char,
    m: Box<KeywordTree>,
    d: char,
)
    requires
        d != c,
    ensures
        find_child(cs.push((c, m)), d) == find_child(cs, d),
    decreases cs.len(),
{
    if cs.len() == 0 {
        assert(cs.push((c, m))[0] == (c, m));
        assert(cs.push((c, m)).drop_first() =~= cs);
    } else {
        assert(cs.push((c, m))[0] == cs[0]);
        assert(cs.push((c, m)).drop_first() =~= cs.drop_first().push((c, m)));
        if cs[0].0 != d {
            lemma_find_child_push_other(cs.drop_first(), c, m, d);
        }
    }
}

/// The first index of `n`'s children labelled `c`, if any.
fn child_index(n: &KeywordTree, c: char) -> (r: Option<usize>)
    ensures
        match r {
            Some(j) => j < n.children@.len() && n.children@[j as int].0 == c && (forall|k: int|
                0 <= k < j ==> (#[trigger] n.children@[k]).0 != c),
            None => forall|k: int|
                0 <= k < n.children@.len() ==> (#[trigger] n.children@[k]).0 != c,
        },
{
    let mut j: usize = 0;
    while j < n.children.len()
        invariant
            j <= n.children@.len(),
            forall|k: int| 0 <= k < j ==> (#[trigger] n.children@[k]).0 != c,
        decreases n.children@.len() - j,
    {
        if n.children[j].0 == c {
            return Some(j);
        }
        j = j + 1;
    }
    None
}

/// The first child of `n` labelled `c`, if any.
pub fn child_get<'a>(n: &'a KeywordTree, c: char) -> (r: Option<&'a KeywordTree>)
    ensures
        match r {
            Some(m) => find_child(n.children@, c) == Some(*m),
            None => find_child(n.children@, c) is None,
        },
{
    match child_index(n, c) {
        Some(j) => {
            proof {
                lemma_find_child_at(n.children@, c, j as int);
            }
            Some(&n.children[j].1)
        },
        None => {
            proof {
                lemma_find_child_none(n.children@, c);
            }
            None
        },
    }
}

impl KeywordTree {
    /// A node with no token and no children.
    pub fn empty() -> (r: KeywordTree)
        ensures
            r.token is None,
            r.children@.len() == 0,
            forall|p: Seq<char>| #[trigger] trie_has(r, p) <==> p.len() == 0,
            forall|p: Seq<char>| #[trigger] trie_tok(r, p) is None,
    {
        let r = KeywordTree { token: None, children: Vec::new() };
        proof {
            assert forall|p: Seq<char>| #[trigger] trie_has(r, p) <==> p.len() == 0 by {
                if p.len() != 0 {
                    assert(find_child(r.children@, p[0]) is None);
                }
            }
            assert forall|p: Seq<char>| #[trigger] trie_tok(r, p) is None by {
                if p.len() != 0 {
                    assert(find_child(r.children@, p[0]) is None);
                }
            }
        }
        r
    }

    /// Inserts the lexeme of `tokentype` into the trie: afterwards every
    /// prefix of the lexeme is a path, and the full lexeme carries the kind.
    pub fn add_token(&mut self, tokentype: TokenType)
        requires
            tokentype matches TokenType::Keyword(_) || tokentype matches TokenType::Operator(_),
        ensures
            forall|p: Seq<char>|
                #[trigger] trie_has(*final(self), p) <==> (trie_has(*old(self), p)
                    || p.is_prefix_of(token_chars(tokentype))),
            forall|p: Seq<char>|
                #[trigger] trie_tok(*final(self), p) == if p == token_chars(tokentype) {
                    Some(tokentype)
                } else {
                    trie_tok(*old(self), p)
                },
    {
        let lexeme: &'static str = match tokentype {
            TokenType::Keyword(k) => k.lexeme(),
            TokenType::Operator(o) => o.lexeme(),
            _ => "",
        };
        let chars = crate::token::chars_of(lexeme);
        add_token_from(self, &chars, 0, tokentype);
        proof {
            assert(chars@.skip(0) =~= token_chars(tokentype));
        }
    }
}

/// Inserts the suffix `lex[idx..]` below `n`, storing `tt` at its end.
fn add_token_from(n: &mut KeywordTree, lex: &Vec<char>, idx: usize, tt: TokenType)
    requires
        idx <= lex@.len(),
    ensures
        forall|p: Seq<char>|
            #[trigger] trie_has(*final(n), p) <==> (trie_has(*old(n), p) || p.is_prefix_of(
                lex@.skip(idx as int),
            )),
        forall|p: Seq<char>|
            #[trigger] trie_tok(*final(n), p) == if p == lex@.skip(idx as int) {
                Some(tt)
            } else {
                trie_tok(*old(n), p)
            },
    decreases lex@.len() - idx,
{
    let ghost suffix = lex@.skip(idx as int);
    if idx == lex.len() {
        n.token = Some(tt);
        proof {
            assert(suffix =~= Seq::<char>::empty());
            assert forall|p: Seq<char>|
                #[trigger] trie_has(*n, p) <==> (trie_has(*old(n), p) || p.is_prefix_of(
                    suffix,
                )) by {
                lemma_node_same_children(*old(n), *n, p);
                if p.is_prefix_of(suffix) {
                    assert(p =~= Seq::<char>::empty());
                }
            }
            assert forall|p: Seq<char>|
                #[trigger] trie_tok(*n, p) == (if p == suffix {
                    Some(tt)
                } else {
                    trie_tok(*old(n), p)
                }) by {
                lemma_node_same_children(*old(n), *n, p);
                if p.len() == 0 {
                    assert(p =~= suffix);
                } else {
                    assert(p != suffix);
                }
            }
        }
    } else {
        let c = lex[idx];
        let ghost n0 = *n;
        let j: usize = match child_index(n, c) {
            Some(j) => {
                proof {
                    lemma_find_child_at(n0.children@, c, j as int);
                }
                j
            },
            None => {
                let fresh = KeywordTree::empty();
                proof {
                    lemma_find_child_none(n0.children@, c);
                }
                n.children.push((c, Box::new(fresh)));
                proof {
                    lemma_find_child_push(
                        n0.children@,
                        c,
                        n.children@[n0.children@.len() as int].1,
                    );
                }
                n.children.len() - 1
            },
        };
        let ghost mid = *n;
        proof {
            assert(mid.children@[j as int].0 == c);
            assert(forall|k: int| 0 <= k < j ==> (#[trigger] mid.children@[k]).0 != c);
            assert(mid.token == n0.token);
        }
        let (elabel, ebox) = n.children.remove(j);
        let mut child: KeywordTree = *ebox;
        let ghost child0 = child;
        proof {
            // how the located child relates to the node before the insertion
            assert(child0 == *mid.children@[j as int].1);
            assert(match find_child(n0.children@, c) {
                Some(m) => m == child0,
                None => child0.token is None && forall|p: Seq<char>|
                    (#[trigger] trie_has(child0, p) <==> p.len() == 0) && trie_tok(
                        child0,
                        p,
                    ) is None,
            });
            assert(forall|d: char|
                d != c ==> #[trigger] find_child(mid.children@, d) == find_child(
                    n0.children@,
                    d,
                ));
        }
        add_token_from(&mut child, lex, idx + 1, tt);
        let ghost childf = child;
        n.children.insert(j, (elabel, Box::new(child)));
        proof {
            let cs = mid.children@;
            let cs2 = n.children@;
            cs.remove_ensures(j as int);
            cs.remove(j as int).insert_ensures(j as int, cs2[j as int]);
            assert(cs2.len() == cs.len());
            assert(cs2[j as int].0 == c && *cs2[j as int].1 == childf);
            assert forall|k: int| 0 <= k < cs.len() && k != j implies cs2[k] == cs[k] by {
                if k < j {
                    assert(cs2[k] == cs.remove(j as int)[k]);
                } else {
                    assert(cs2[k] == cs.remove(j as int)[k - 1]);
                }
            }
            lemma_find_child_update(cs, cs2, c, j as int);
            assert(n.token == n0.token);

            let suffix1 = lex@.skip(idx as int + 1);
            assert(suffix.len() > 0 && suffix[0] == c);
            assert(suffix.drop_first() =~= suffix1);

            assert forall|p: Seq<char>|
                #[trigger] trie_has(*n, p) <==> (trie_has(n0, p) || p.is_prefix_of(suffix)) by {
                if p.len() == 0 {
                    assert(trie_has(*n, p) && trie_has(n0, p));
                } else {
                    let p1 = p.drop_first();
                    if p[0] == c {
                        assert(node_at(*n, p) == node_at(childf, p1));
                        assert(trie_has(*n, p) == trie_has(childf, p1));
                        assert(trie_has(childf, p1) <==> (trie_has(child0, p1)
                            || p1.is_prefix_of(suffix1)));
                        lemma_prefix_step(p, suffix);
                        assert(p.is_prefix_of(suffix) <==> p1.is_prefix_of(suffix1));
                        match find_child(n0.children@, c) {
                            Some(_) => {
                                assert(node_at(n0, p) == node_at(child0, p1));
                                assert(trie_has(n0, p) == trie_has(child0, p1));
                            },
                            None => {
                                assert(node_at(n0, p) is None);
                                assert(trie_has(child0, p1) <==> p1.len() == 0);
                                if p1.len() == 0 {
                                    assert(p =~= seq![c]);
                                    assert(p =~= suffix.subrange(0, 1));
                                    assert(p.is_prefix_of(suffix));
                                }
                            },
                        }
                    } else {
                        assert(find_child(cs2, p[0]) == find_child(n0.children@, p[0]));
                        assert(node_at(*n, p) == node_at(n0, p));
                        if p.is_prefix_of(suffix) {
                            assert(p[0] == suffix.subrange(0, p.len() as int)[0]);
                            assert(false);
                        }
                    }
                }
            }
            assert forall|p: Seq<char>|
                #[trigger] trie_tok(*n, p) == (if p == suffix {
                    Some(tt)
                } else {
                    trie_tok(n0, p)
                }) by {
                if p.len() == 0 {
                    assert(node_at(*n, p) == Some(*n) && node_at(n0, p) == Some(n0));
                } else {
                    let p1 = p.drop_first();
                    if p[0] == c {
                        assert(node_at(*n, p) == node_at(childf, p1));
                        assert(trie_tok(*n, p) == trie_tok(childf, p1));
                        assert(trie_tok(childf, p1) == (if p1 == suffix1 {
                            Some(tt)
                        } else {
                            trie_tok(child0, p1)
                        }));
                        if p == suffix {
                            assert(p1 =~= suffix1);
                        }
                        if p1 == suffix1 && p != suffix {
                            assert(p.len() == suffix.len());
                            assert forall|i: int| 0 <= i < p.len() implies p[i] == suffix[i] by {
                                if i > 0 {
                                    assert(p[i] == p1[i - 1]);
                                    assert(suffix[i] == suffix.drop_first()[i - 1]);
                                }
                            }
                            assert(p =~= suffix);
                        }
                        match find_child(n0.children@, c) {
                            Some(_) => {
                                assert(node_at(n0, p) == node_at(child0, p1));
                                assert(trie_tok(n0, p) == trie_tok(child0, p1));
                            },
                            None => {
                                assert(node_at(n0, p) is None);
                                assert(trie_tok(child0, p1) is None);
                            },
                        }
                    } else {
                        assert(find_child(cs2, p[0]) == find_child(n0.children@, p[0]));
                        assert(node_at(*n, p) == node_at(n0, p));
                        assert(p != suffix);
                    }
                }
            }
        }
    }
}

/// Extending matched heads: a nonempty sequence is a prefix of another with
/// the same head exactly when its tail is a prefix of the other's tail.
proof fn lemma_prefix_step(p: Seq<char>, q: Seq<char>)
    requires
        p.len() > 0,
        q.len() > 0,
        p[0] == q[0],
    ensures
        p.is_prefix_of(q) <==> p.drop_first().is_prefix_of(q.drop_first()),
{
    let p1 = p.drop_first();
    let q1 = q.drop_first();
    if p.is_prefix_of(q) {
        assert forall|i: int| 0 <= i < p1.len() implies p1[i] == q1.subrange(
            0,
            p1.len() as int,
        )[i] by {
            assert(p[i + 1] == q.subrange(0, p.len() as int)[i + 1]);
        }
        assert(p1 =~= q1.subrange(0, p1.len() as int));
    }
    if p1.is_prefix_of(q1) {
        assert forall|i: int| 0 <= i < p.len() implies p[i] == q.subrange(
            0,
            p.len() as int,
        )[i] by {
            if i > 0 {
                assert(p1[i - 1] == q1.subrange(0, p1.len() as int)[i - 1]);
            }
        }
        assert(p =~= q.subrange(0, p.len() as int));
    }
}

/// Whether `p` is a prefix of some keyword lexeme.
pub open spec fn kw_prefix(p: Seq<char>) -> bool {
    ||| p.is_prefix_of(keyword_chars(Keyword::Assert))
    ||| p.is_prefix_of(keyword_chars(Keyword::If))
    ||| p.is_prefix_of(keyword_chars(Keyword::In))
    ||| p.is_prefix_of(keyword_chars(Keyword::Not))
    ||| p.is_prefix_of(keyword_chars(Keyword::Else))
    ||| p.is_prefix_of(keyword_chars(Keyword::Elif))
    ||| p.is_prefix_of(keyword_chars(Keyword::While))
    ||| p.is_prefix_of(keyword_chars(Keyword::For))
    ||| p.is_prefix_of(keyword_chars(Keyword::Class))
}

/// The keyword whose lexeme is exactly `p`, if any.
pub open spec fn kw_lookup(p: Seq<char>) -> Option<TokenType> {
    if p == keyword_chars(Keyword::Assert) {
        Some(TokenType::Keyword(Keyword::Assert))
    } else if p == keyword_chars(Keyword::If) {
        Some(TokenType::Keyword(Keyword::If))
    } else if p == keyword_chars(Keyword::In) {
        Some(TokenType::Keyword(Keyword::In))
    } else if p == keyword_chars(Keyword::Not) {
        Some(TokenType::Keyword(Keyword::Not))
    } else if p == keyword_chars(Keyword::Else) {
        Some(TokenType::Keyword(Keyword::Else))
    } else if p == keyword_chars(Keyword::Elif) {
        Some(TokenType::Keyword(Keyword::Elif))
    } else if p == keyword_chars(Keyword::While) {
        Some(TokenType::Keyword(Keyword::While))
    } else if p == keyword_chars(Keyword::For) {
        Some(TokenType::Keyword(Keyword::For))
    } else if p == keyword_chars(Keyword::Class) {
        Some(TokenType::Keyword(Keyword::Class))
    } else {
        None
    }
}

/// Whether `p` is a prefix of some operator lexeme.
pub open spec fn op_prefix(p: Seq<char>) -> bool {
    ||| p.is_prefix_of(operator_chars(Operator::LeftParen))
    ||| p.is_prefix_of(operator_chars(Operator::RightParen))
    ||| p.is_prefix_of(operator_chars(Operator::Pound))
    ||| p.is_prefix_of(operator_chars(Operator::Plus))
    ||| p.is_prefix_of(operator_chars(Operator::Minus))
    ||| p.is_prefix_of(operator_chars(Operator::Star))
    ||| p.is_prefix_of(operator_chars(Operator::StarStar))
    ||| p.is_prefix_of(operator_chars(Operator::Slash))
    ||| p.is_prefix_of(operator_chars(Operator::SlashSlash))
    ||| p.is_prefix_of(operator_chars(Operator::Equal))
    ||| p.is_prefix_of(operator_chars(Operator::EqualEqual))
    ||| p.is_prefix_of(operator_chars(Operator::NotEqual))
    ||| p.is_prefix_of(operator_chars(Operator::Less))
    ||| p.is_prefix_of(operator_chars(Operator::LessEqual))
    ||| p.is_prefix_of(operator_chars(Operator::Greater))
    ||| p.is_prefix_of(operator_chars(Operator::GreaterEqual))
}

/// The operator whose lexeme is exactly `p`, if any.
pub open spec fn op_lookup(p: Seq<char>) -> Option<TokenType> {
    if p == operator_chars(Operator::LeftParen) {
        Some(TokenType::Operator(Operator::LeftParen))
    } else if p == operator_chars(Operator::RightParen) {
        Some(TokenType::Operator(Operator::RightParen))
    } else if p == operator_chars(Operator::Pound) {
        Some(TokenType::Operator(Operator::Pound))
    } else if p == operator_chars(Operator::Plus) {
        Some(TokenType::Operator(Operator::Plus))
    } else if p == operator_chars(Operator::Minus) {
        Some(TokenType::Operator(Operator::Minus))
    } else if p == operator_chars(Operator::Star) {
        Some(TokenType::Operator(Operator::Star))
    } else if p == operator_chars(Operator::StarStar) {
        Some(TokenType::Operator(Operator::StarStar))
    } else if p == operator_chars(Operator::Slash) {
        Some(TokenType::Operator(Operator::Slash))
    } else if p == operator_chars(Operator::SlashSlash) {
        Some(TokenType::Operator(Operator::SlashSlash))
    } else if p == operator_chars(Operator::Equal) {
        Some(TokenType::Operator(Operator::Equal))
    } else if p == operator_chars(Operator::EqualEqual) {
        Some(TokenType::Operator(Operator::EqualEqual))
    } else if p == operator_chars(Operator::NotEqual) {
        Some(TokenType::Operator(Operator::NotEqual))
    } else if p == operator_chars(Operator::Less) {
        Some(TokenType::Operator(Operator::Less))
    } else if p == operator_chars(Operator::LessEqual) {
        Some(TokenType::Operator(Operator::LessEqual))
    } else if p == operator_chars(Operator::Greater) {
        Some(TokenType::Operator(Operator::Greater))
    } else if p == operator_chars(Operator::GreaterEqual) {
        Some(TokenType::Operator(Operator::GreaterEqual))
    } else {
        None
    }
}

/// A correctly populated keyword trie: its paths are exactly the prefixes of
/// keyword lexemes, and its terminals exactly the keyword lexemes.
pub open spec fn kw_tree_wf(t: KeywordTree) -> bool {
    &&& forall|p: Seq<char>| #[trigger] trie_has(t, p) <==> (p.len() == 0 || kw_prefix(p))
    &&& forall|p: Seq<char>| #[trigger] trie_tok(t, p) == kw_lookup(p)
}

/// A correctly populated operator trie.
pub open spec fn op_tree_wf(t: KeywordTree) -> bool {
    &&& forall|p: Seq<char>| #[trigger] trie_has(t, p) <==> (p.len() == 0 || op_prefix(p))
    &&& forall|p: Seq<char>| #[trigger] trie_tok(t, p) == op_lookup(p)
}

impl KeywordTree {
    /// Builds the two tries: one over the keyword lexemes, one over the
    /// operator lexemes.
    pub fn populate() -> (r: (KeywordTree, KeywordTree))
        ensures
            kw_tree_wf(r.0),
            op_tree_wf(r.1),
    {
        let mut kwt = KeywordTree::empty();
        kwt.add_token(TokenType::Keyword(Keyword::Assert));
        kwt.add_token(TokenType::Keyword(Keyword::If));
        kwt.add_token(TokenType::Keyword(Keyword::In));
        kwt.add_token(TokenType::Keyword(Keyword::Not));
        kwt.add_token(TokenType::Keyword(Keyword::Else));
        kwt.add_token(TokenType::Keyword(Keyword::Elif));
        kwt.add_token(TokenType::Keyword(Keyword::While));
        kwt.add_token(TokenType::Keyword(Keyword::For));
        kwt.add_token(TokenType::Keyword(Keyword::Class));

        let mut ot = KeywordTree::empty();
        ot.add_token(TokenType::Operator(Operator::LeftParen));
        ot.add_token(TokenType::Operator(Operator::RightParen));
        ot.add_token(TokenType::Operator(Operator::Pound));
        ot.add_token(TokenType::Operator(Operator::Plus));
        ot.add_token(TokenType::Operator(Operator::Minus));
        ot.add_token(TokenType::Operator(Operator::Star));
        ot.add_token(TokenType::Operator(Operator::StarStar));
        ot.add_token(TokenType::Operator(Operator::Slash));
        ot.add_token(TokenType::Operator(Operator::SlashSlash));
        ot.add_token(TokenType::Operator(Operator::Equal));
        ot.add_token(TokenType::Operator(Operator::EqualEqual));
        ot.add_token(TokenType::Operator(Operator::NotEqual));
        ot.add_token(TokenType::Operator(Operator::Less));
        ot.add_token(TokenType::Operator(Operator::LessEqual));
        ot.add_token(TokenType::Operator(Operator::Greater));
        ot.add_token(TokenType::Operator(Operator::GreaterEqual));

        proof {
            assert forall|p: Seq<char>|
                #[trigger] trie_has(kwt, p) <==> (p.len() == 0 || kw_prefix(p)) by {}
            assert forall|p: Seq<char>| #[trigger] trie_tok(kwt, p) == kw_lookup(p) by {}
            assert forall|p: Seq<char>|
                #[trigger] trie_has(ot, p) <==> (p.len() == 0 || op_prefix(p)) by {}
            assert forall|p: Seq<char>| #[trigger] trie_tok(ot, p) == op_lookup(p) by {}
        }
        (kwt, ot)
    }
}

/// Two nodes with the same children agree on every nonempty path.
proof fn lemma_node_same_children(a: KeywordTree, b: KeywordTree, p: Seq<char>)
    requires
        a.children == b.children,
    ensures
        p.len() > 0 ==> node_at(a, p) == node_at(b, p),
{
}

} // verus!
