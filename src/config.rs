use vstd::prelude::*;

verus! {

/// Whether `c` is a Unicode `White_Space` character, the set that
/// `char::is_whitespace` tests for.
pub open spec fn is_white_spec(c: char) -> bool {
    ||| ('\u{9}' <= c && c <= '\u{d}')
    ||| c == ' '
    ||| c == '\u{85}'
    ||| c == '\u{a0}'
    ||| c == '\u{1680}'
    ||| ('\u{2000}' <= c && c <= '\u{200a}')
    ||| c == '\u{2028}'
    ||| c == '\u{2029}'
    ||| c == '\u{202f}'
    ||| c == '\u{205f}'
    ||| c == '\u{3000}'
}

pub fn is_white(c: char) -> (r: bool)
    ensures
        r == is_white_spec(c),
{
    ('\u{9}' <= c && c <= '\u{d}') || c == ' ' || c == '\u{85}' || c == '\u{a0}' || c == '\u{1680}'
        || ('\u{2000}' <= c && c <= '\u{200a}') || c == '\u{2028}' || c == '\u{2029}' || c
        == '\u{202f}' || c == '\u{205f}' || c == '\u{3000}'
}

/// `s[a..b]` is one of the items of `s`: a piece between two commas, or
/// between a comma and an end.
pub open spec fn is_item(s: Seq<char>, a: int, b: int) -> bool {
    &&& 0 <= a <= b <= s.len()
    &&& (a == 0 || s[a - 1] == ',')
    &&& (b == s.len() || s[b] == ',')
    &&& forall|j: int| a <= j < b ==> s[j] != ','
}

/// `s[a..b]` is `w` with nothing but white space around it.
pub open spec fn padded_at(s: Seq<char>, a: int, b: int, w: Seq<char>) -> bool {
    exists|lo: int|
        #![trigger s.subrange(lo, lo + w.len())]
        a <= lo && lo + w.len() <= b && s.subrange(lo, lo + w.len()) == w && (forall|j: int|
            a <= j < lo ==> is_white_spec(s[j])) && (forall|j: int|
            lo + w.len() <= j < b ==> is_white_spec(s[j]))
}

/// `w`, once white space is trimmed around it, is one of the items of `s`.
pub open spec fn lists(s: Seq<char>, w: Seq<char>) -> bool {
    exists|a: int, b: int| #[trigger] is_item(s, a, b) && padded_at(s, a, b, w)
}

/// A word to look for: not empty, and no white space at either end.
pub open spec fn is_word(w: Seq<char>) -> bool {
    w.len() > 0 && !is_white_spec(w[0]) && !is_white_spec(w[w.len() - 1])
}

/// Whether `s[a..b]`, trimmed of white space, is `w`.
fn item_is(s: &str, a: usize, b: usize, w: &str) -> (r: bool)
    requires
        a <= b <= s@.len(),
        is_word(w@),
    ensures
        r == padded_at(s@, a as int, b as int, w@),
{
    let mut lo: usize = a;
    while lo < b
        invariant
            a <= lo <= b <= s@.len(),
            forall|j: int| a <= j < lo ==> is_white_spec(s@[j]),
        ensures
            a <= lo <= b,
            forall|j: int| a <= j < lo ==> is_white_spec(s@[j]),
            lo == b || !is_white_spec(s@[lo as int]),
        decreases b - lo,
    {
        if !is_white(s.get_char(lo)) {
            break;
        }
        lo = lo + 1;
    }
    let mut hi: usize = b;
    while hi > lo
        invariant
            a <= lo <= hi <= b <= s@.len(),
            forall|j: int| hi <= j < b ==> is_white_spec(s@[j]),
        ensures
            lo <= hi <= b,
            forall|j: int| hi <= j < b ==> is_white_spec(s@[j]),
            hi == lo || !is_white_spec(s@[hi - 1]),
        decreases hi - lo,
    {
        if !is_white(s.get_char(hi - 1)) {
            break;
        }
        hi = hi - 1;
    }
    let m = w.unicode_len();
    proof {
        if padded_at(s@, a as int, b as int, w@) {
            let lo2 = choose|lo2: int|
                #![trigger s@.subrange(lo2, lo2 + w@.len())]
                a <= lo2 && lo2 + w@.len() <= b && s@.subrange(lo2, lo2 + w@.len()) == w@ && (
                forall|j: int| a <= j < lo2 ==> is_white_spec(s@[j])) && (forall|j: int|
                    lo2 + w@.len() <= j < b ==> is_white_spec(s@[j]));
            assert(s@[lo2] == w@[0]) by {
                assert(s@.subrange(lo2, lo2 + w@.len())[0] == w@[0]);
            }
            let hi2 = lo2 + w@.len();
            assert(s@[hi2 - 1] == w@[w@.len() - 1]) by {
                assert(s@.subrange(lo2, hi2)[w@.len() - 1] == w@[w@.len() - 1]);
            }
            assert(lo2 == lo);
            assert(hi2 == hi);
        }
    }
    assert(padded_at(s@, a as int, b as int, w@) ==> s@.subrange(lo as int, hi as int) == w@);
    if hi - lo != m {
        return false;
    }
    let mut k: usize = 0;
    while k < m
        invariant
            lo + m == hi <= s@.len(),
            m == w@.len(),
            0 <= k <= m,
            forall|j: int| 0 <= j < k ==> s@[lo + j] == w@[j],
            padded_at(s@, a as int, b as int, w@) ==> s@.subrange(lo as int, hi as int) == w@,
        decreases m - k,
    {
        if s.get_char(lo + k) != w.get_char(k) {
            proof {
                assert(s@.subrange(lo as int, hi as int)[k as int] != w@[k as int]);
            }
            return false;
        }
        k = k + 1;
    }
    assert(s@.subrange(lo as int, lo + w@.len()) =~= w@);
    true
}

/// Some item of `s` that ends before `e` is `w`, padded.
pub open spec fn found_before(s: Seq<char>, w: Seq<char>, e: int) -> bool {
    exists|a: int, b: int| #[trigger] is_item(s, a, b) && b < e && padded_at(s, a, b, w)
}

pub open spec fn word_actor() -> Seq<char> {
    seq!['a', 'c', 't', 'o', 'r']
}

pub open spec fn word_inject() -> Seq<char> {
    seq!['i', 'n', 'j', 'e', 'c', 't']
}

pub open spec fn word_register() -> Seq<char> {
    seq!['r', 'e', 'g', 'i', 's', 't', 'e', 'r']
}

/// When `s[start..e]` is an item, it is the only item that ends in
/// `start..=e`; so the items that end before `e + 1` are those that end
/// before `start`, and this one.
proof fn lemma_found_step(s: Seq<char>, w: Seq<char>, start: int, e: int)
    requires
        is_item(s, start, e),
    ensures
        found_before(s, w, e + 1) == (found_before(s, w, start) || padded_at(s, start, e, w)),
{
    if found_before(s, w, e + 1) {
        let (a, b) = choose|a: int, b: int| #[trigger]
            is_item(s, a, b) && b < e + 1 && padded_at(s, a, b, w);
        if b >= start {
            if b < e {
                assert(s[b] == ',');
            }
            if a > start {
                assert(s[a - 1] == ',');
            }
            if a < start {
                assert(s[start - 1] == ',');
            }
            assert(a == start && b == e);
        }
    }
    if padded_at(s, start, e, w) {
        assert(is_item(s, start, e));
    }
}

/// How a component asked to be treated, read from the arguments of its
/// attribute.
#[derive(PartialEq, Eq, Structural, Clone, Copy, Debug)]
pub struct BeanConfig {
    pub is_actor: bool,
    pub is_inject: bool,
    pub is_register: bool,
}

/// Takes the item `arg[start..e]` into `config`.
fn read_item(arg: &str, start: usize, e: usize, config: BeanConfig) -> (r: BeanConfig)
    requires
        is_item(arg@, start as int, e as int),
        config.is_actor == (found_before(arg@, word_actor(), start as int) || found_before(
            arg@,
            word_inject(),
            start as int,
        )),
        config.is_inject == found_before(arg@, word_inject(), start as int),
        config.is_register == found_before(arg@, word_register(), start as int),
    ensures
        r.is_actor == (found_before(arg@, word_actor(), e + 1) || found_before(
            arg@,
            word_inject(),
            e + 1,
        )),
        r.is_inject == found_before(arg@, word_inject(), e + 1),
        r.is_register == found_before(arg@, word_register(), e + 1),
{
    proof {
        reveal_strlit("actor");
        reveal_strlit("inject");
        reveal_strlit("register");
        assert("actor"@ =~= word_actor());
        assert("inject"@ =~= word_inject());
        assert("register"@ =~= word_register());
        lemma_found_step(arg@, word_actor(), start as int, e as int);
        lemma_found_step(arg@, word_inject(), start as int, e as int);
        lemma_found_step(arg@, word_register(), start as int, e as int);
    }
    let mut r = config;
    if item_is(arg, start, e, "actor") {
        r.is_actor = true;
    }
    if item_is(arg, start, e, "inject") {
        r.is_actor = true;
        r.is_inject = true;
    }
    if item_is(arg, start, e, "register") {
        r.is_register = true;
    }
    r
}

/// Reads the comma-separated options `actor`, `inject` and `register`;
/// white space around an option is ignored, and so is any other item.
/// `inject` implies `actor`.
pub fn read_bean_config(arg: &str) -> (r: BeanConfig)
    ensures
        r.is_actor == (lists(arg@, word_actor()) || lists(arg@, word_inject())),
        r.is_inject == lists(arg@, word_inject()),
        r.is_register == lists(arg@, word_register()),
{
    let ghost s = arg@;
    proof {
        assert(found_before(s, word_actor(), 0) == false);
        assert(found_before(s, word_inject(), 0) == false);
        assert(found_before(s, word_register(), 0) == false);
    }
    let n = arg.unicode_len();
    let mut config = BeanConfig { is_actor: false, is_inject: false, is_register: false };
    let mut start: usize = 0;
    let mut i: usize = 0;
    while i < n
        invariant
            s == arg@,
            n == s.len(),
            0 <= start <= i <= n,
            start == 0 || s[start - 1] == ',',
            forall|j: int| start <= j < i ==> s[j] != ',',
            config.is_actor == (found_before(s, word_actor(), start as int) || found_before(
                s,
                word_inject(),
                start as int,
            )),
            config.is_inject == found_before(s, word_inject(), start as int),
            config.is_register == found_before(s, word_register(), start as int),
        decreases n - i,
    {
        if arg.get_char(i) == ',' {
            config = read_item(arg, start, i, config);
            start = i + 1;
        }
        i = i + 1;
    }
    config = read_item(arg, start, n, config);
    proof {
        assert forall|w: Seq<char>| lists(s, w) == found_before(s, w, n + 1) by {
            if lists(s, w) {
                let (a, b) = choose|a: int, b: int| #[trigger]
                    is_item(s, a, b) && padded_at(s, a, b, w);
                assert(b < n + 1);
            }
        }
    }
    config
}

/// The kind of registration emitted for a component.
#[derive(PartialEq, Eq, Structural, Clone, Copy, Debug)]
pub enum BeanKind {
    /// A plain value built by `Default`.
    Plain,
    /// An independently addressable component, started by `Default`.
    Actor,
    /// An addressable component that also receives the injection events.
    ActorWithInject,
}

/// What is emitted for a component: the event-forwarding glue, and the
/// registration, if one was asked for.
#[derive(PartialEq, Eq, Structural, Clone, Copy, Debug)]
pub struct BeanPlan {
    pub inject_handler: bool,
    pub registration: Option<BeanKind>,
}

#[derive(PartialEq, Eq, Structural, Clone, Copy, Debug)]
pub enum BeanConfigError {
    /// Injection events were asked for a component that is not addressable,
    /// and so cannot receive them.
    InjectWithoutActor,
}

pub open spec fn kind_of(config: BeanConfig) -> BeanKind {
    if !config.is_actor {
        BeanKind::Plain
    } else if config.is_inject {
        BeanKind::ActorWithInject
    } else {
        BeanKind::Actor
    }
}

/// Decides what to emit for a component. The one configuration refused is
/// `inject` without `actor`.
pub fn plan_bean(config: BeanConfig) -> (r: Result<BeanPlan, BeanConfigError>)
    ensures
        r is Err <==> (config.is_inject && !config.is_actor),
        r is Err ==> r == Err::<BeanPlan, BeanConfigError>(BeanConfigError::InjectWithoutActor),
        r is Ok ==> r == Ok::<BeanPlan, BeanConfigError>(
            BeanPlan {
                inject_handler: config.is_inject,
                registration: if config.is_register {
                    Some(kind_of(config))
                } else {
                    None
                },
            },
        ),
{
    if config.is_inject && !config.is_actor {
        return Err(BeanConfigError::InjectWithoutActor);
    }
    let registration = if !config.is_register {
        None
    } else if !config.is_actor {
        Some(BeanKind::Plain)
    } else if config.is_inject {
        Some(BeanKind::ActorWithInject)
    } else {
        Some(BeanKind::Actor)
    };
    Ok(BeanPlan { inject_handler: config.is_inject, registration })
}

} // verus!
