//! Identities of task invocations: a task with the arguments and the
//! environment that it is invoked with.

use crate::digest::{blake3_digest, blake3_hash};
use crate::keys::{
    last_before_tail, parse_task_key, task_key_less, task_key_less_total, task_key_less_transitive,
    task_key_round_trip, task_key_text, valid_task_key, KeyError, KeyFault, TaskKey, TaskKeyView,
};
use crate::order::{
    outcome, ranked, ranked_ignores_order, sort_ranked, view_of, views, Ranked,
};
use crate::table::Key;
use crate::text::{
    chars_of, has_text, hex_text, join_two, split_at_last, split_last, split_last_at, text_before,
    text_less, text_less_irreflexive, text_less_total, text_less_transitive, to_hex,
};
use vstd::bytes::{
    lemma_auto_spec_u64_to_from_le_bytes, spec_u64_from_le_bytes, spec_u64_to_le_bytes,
    u64_to_le_bytes,
};
use vstd::prelude::*;
use vstd::string::StringSliceAdditionalSpecFns;
use vstd::utf8::{encode_utf8, encode_utf8_decode_utf8};

verus! {

broadcast use crate::order::group_views;

/// A variable of an invocation's environment; without a value it is unset.
pub struct EnvView {
    pub name: Seq<char>,
    pub value: Option<Seq<char>>,
}

/// A variable of an invocation's environment; without a value it is unset.
#[derive(Debug)]
pub struct EnvEntry {
    pub name: String,
    pub value: Option<String>,
}

impl View for EnvEntry {
    type V = EnvView;

    open spec fn view(&self) -> EnvView {
        EnvView { name: self.name@, value: view_of(self.value) }
    }
}

/// Variables that are unset come before those with a value.
pub open spec fn value_less(a: Option<Seq<char>>, b: Option<Seq<char>>) -> bool {
    match (a, b) {
        (None, Some(_)) => true,
        (Some(x), Some(y)) => text_less(x, y),
        _ => false,
    }
}

/// Variables are ordered by name, then by value.
pub open spec fn env_less(a: EnvView, b: EnvView) -> bool {
    text_less(a.name, b.name) || (a.name == b.name && value_less(a.value, b.value))
}

/// The order on variables is transitive.
proof fn env_less_transitive(a: EnvView, b: EnvView, c: EnvView)
    requires
        env_less(a, b),
        env_less(b, c),
    ensures
        env_less(a, c),
{
    if text_less(a.name, b.name) && text_less(b.name, c.name) {
        text_less_transitive(a.name, b.name, c.name);
    } else if a.name == b.name && b.name == c.name {
        text_less_irreflexive(a.name);
        if a.value is Some && b.value is Some && c.value is Some {
            text_less_transitive(a.value->0, b.value->0, c.value->0);
        }
    }
}

/// Two variables are equal or one precedes the other.
pub proof fn env_less_total(a: EnvView, b: EnvView)
    ensures
        env_less(a, b) || a == b || env_less(b, a),
{
    text_less_total(a.name, b.name);
    if a.value is Some && b.value is Some {
        text_less_total(a.value->0, b.value->0);
    }
}

impl Ranked for EnvEntry {
    open spec fn before(a: EnvView, b: EnvView) -> bool {
        env_less(a, b)
    }

    proof fn before_irreflexive(a: EnvView) {
        text_less_irreflexive(a.name);
        if a.value is Some {
            text_less_irreflexive(a.value->0);
        }
    }

    proof fn before_transitive(a: EnvView, b: EnvView, c: EnvView) {
        env_less_transitive(a, b, c);
    }

    proof fn before_total(a: EnvView, b: EnvView, c: EnvView) {
        env_less_total(a, c);
        if env_less(c, a) {
            env_less_transitive(c, a, b);
        }
    }

    fn is_before(&self, other: &Self) -> bool {
        if text_before(self.name.as_str(), other.name.as_str()) {
            return true;
        }
        if self.name != other.name {
            return false;
        }
        match (&self.value, &other.value) {
            (None, Some(_)) => true,
            (Some(a), Some(b)) => text_before(a.as_str(), b.as_str()),
            _ => false,
        }
    }
}

/// A count as eight bytes, the lowest first.
pub open spec fn count_bytes(n: nat) -> Seq<u8> {
    spec_u64_to_le_bytes(n as u64)
}

/// A byte string behind its length.
pub open spec fn field_bytes(bytes: Seq<u8>) -> Seq<u8> {
    count_bytes(bytes.len()) + bytes
}

/// The fields of all arguments.
pub open spec fn args_bytes(args: Seq<Seq<char>>) -> Seq<u8>
    decreases args.len(),
{
    if args.len() == 0 {
        Seq::empty()
    } else {
        args_bytes(args.drop_last()) + field_bytes(encode_utf8(args.last()))
    }
}

/// The fields of one variable: its name, and its value where it has one.
pub open spec fn env_entry_bytes(entry: EnvView) -> Seq<u8> {
    field_bytes(encode_utf8(entry.name)) + match entry.value {
        Some(value) => seq![1u8] + field_bytes(encode_utf8(value)),
        None => seq![0u8],
    }
}

/// The fields of all variables.
pub open spec fn env_bytes(env: Seq<EnvView>) -> Seq<u8>
    decreases env.len(),
{
    if env.len() == 0 {
        Seq::empty()
    } else {
        env_bytes(env.drop_last()) + env_entry_bytes(env.last())
    }
}

/// The byte string that identifies an invocation.
pub open spec fn invocation_bytes(args: Seq<Seq<char>>, env: Seq<EnvView>) -> Seq<u8> {
    field_bytes(encode_utf8("moon-task-invocation-v1"@)) + count_bytes(args.len()) + args_bytes(args)
        + count_bytes(env.len()) + env_bytes(env)
}

/// The variant of an invocation: none without arguments and environment, and
/// otherwise the digest of both, where the order of the environment does not count.
pub open spec fn invocation_variant(args: Seq<Seq<char>>, env: Seq<EnvView>) -> Option<Seq<char>> {
    if args.len() == 0 && env.len() == 0 {
        None
    } else {
        Some(hex_text(blake3_digest(invocation_bytes(args, ranked::<EnvEntry>(env)))))
    }
}

/// The order in which the variables of the environment are given does not
/// change the identity of an invocation.
pub proof fn environment_order_is_canonical(
    args: Seq<Seq<char>>,
    first: Seq<EnvView>,
    second: Seq<EnvView>,
)
    requires
        first.to_multiset() == second.to_multiset(),
    ensures
        invocation_variant(args, first) == invocation_variant(args, second),
{
    broadcast use vstd::seq_lib::group_to_multiset_ensures;

    assert(first.len() == first.to_multiset().len());
    assert(second.len() == second.to_multiset().len());
    assert forall|a: EnvView, b: EnvView|
        first.contains(a) && first.contains(b) && a != b implies #[trigger] EnvEntry::before(a, b)
        || EnvEntry::before(b, a) by {
        env_less_total(a, b);
    }
    ranked_ignores_order::<EnvEntry>(first, second);
}

/// A field in front tells where it ends.
proof fn fields_are_delimited(a: Seq<u8>, rest_a: Seq<u8>, b: Seq<u8>, rest_b: Seq<u8>)
    requires
        field_bytes(a) + rest_a == field_bytes(b) + rest_b,
        a.len() <= u64::MAX,
        b.len() <= u64::MAX,
    ensures
        a == b,
        rest_a == rest_b,
{
    lemma_auto_spec_u64_to_from_le_bytes();
    let x = field_bytes(a) + rest_a;
    let y = field_bytes(b) + rest_b;
    assert(x.subrange(0, 8) =~= count_bytes(a.len()));
    assert(y.subrange(0, 8) =~= count_bytes(b.len()));
    assert(spec_u64_from_le_bytes(count_bytes(a.len())) == a.len() as u64);
    assert(spec_u64_from_le_bytes(count_bytes(b.len())) == b.len() as u64);
    assert(a.len() == b.len());
    assert(x.subrange(8, (8 + a.len()) as int) =~= a);
    assert(y.subrange(8, (8 + a.len()) as int) =~= b);
    assert(x.skip((8 + a.len()) as int) =~= rest_a);
    assert(y.skip((8 + a.len()) as int) =~= rest_b);
}

/// The fields of the arguments without the first one stand behind it.
proof fn args_bytes_front(args: Seq<Seq<char>>)
    requires
        args.len() > 0,
    ensures
        args_bytes(args) == field_bytes(encode_utf8(args[0])) + args_bytes(args.drop_first()),
    decreases args.len(),
{
    if args.len() == 1 {
        assert(args.drop_last() =~= Seq::<Seq<char>>::empty());
        assert(args.drop_first() =~= Seq::<Seq<char>>::empty());
        assert(args_bytes(args) =~= field_bytes(encode_utf8(args[0])) + args_bytes(
            args.drop_first(),
        ));
    } else {
        args_bytes_front(args.drop_last());
        assert(args.drop_last().drop_first() =~= args.drop_first().drop_last());
        assert(args_bytes(args) =~= field_bytes(encode_utf8(args[0])) + args_bytes(
            args.drop_first(),
        ));
    }
}

/// The lengths of all texts, counted in bytes, fit in eight bytes.
pub open spec fn texts_fit(texts: Seq<Seq<char>>) -> bool {
    texts.len() <= u64::MAX && forall|i: int|
        0 <= i < texts.len() ==> encode_utf8(#[trigger] texts[i]).len() <= u64::MAX
}

/// Equally many arguments with the same fields in front are the same arguments.
proof fn args_are_delimited(
    a: Seq<Seq<char>>,
    rest_a: Seq<u8>,
    b: Seq<Seq<char>>,
    rest_b: Seq<u8>,
)
    requires
        args_bytes(a) + rest_a == args_bytes(b) + rest_b,
        a.len() == b.len(),
        texts_fit(a),
        texts_fit(b),
    ensures
        a == b,
        rest_a == rest_b,
    decreases a.len(),
{
    if a.len() == 0 {
        assert(a =~= b);
        assert(args_bytes(a) + rest_a =~= rest_a);
        assert(args_bytes(b) + rest_b =~= rest_b);
    } else {
        args_bytes_front(a);
        args_bytes_front(b);
        let tail_a = args_bytes(a.drop_first()) + rest_a;
        let tail_b = args_bytes(b.drop_first()) + rest_b;
        assert(args_bytes(a) + rest_a =~= field_bytes(encode_utf8(a[0])) + tail_a);
        assert(args_bytes(b) + rest_b =~= field_bytes(encode_utf8(b[0])) + tail_b);
        fields_are_delimited(encode_utf8(a[0]), tail_a, encode_utf8(b[0]), tail_b);
        encode_utf8_decode_utf8(a[0]);
        encode_utf8_decode_utf8(b[0]);
        assert(a[0] == b[0]);
        let rest_of_a = a.drop_first();
        let rest_of_b = b.drop_first();
        assert forall|i: int| 0 <= i < rest_of_a.len() implies encode_utf8(
            #[trigger] rest_of_a[i],
        ).len() <= u64::MAX by {
            assert(encode_utf8(a[i + 1]).len() <= u64::MAX);
        }
        assert forall|i: int| 0 <= i < rest_of_b.len() implies encode_utf8(
            #[trigger] rest_of_b[i],
        ).len() <= u64::MAX by {
            assert(encode_utf8(b[i + 1]).len() <= u64::MAX);
        }
        args_are_delimited(rest_of_a, rest_a, rest_of_b, rest_b);
        assert(a =~= seq![a[0]] + rest_of_a);
        assert(b =~= seq![b[0]] + rest_of_b);
    }
}

/// The lengths of all names and values, counted in bytes, fit in eight bytes.
pub open spec fn env_fits(env: Seq<EnvView>) -> bool {
    env.len() <= u64::MAX && forall|i: int| 0 <= i < env.len() ==> entry_fits(#[trigger] env[i])
}

/// The lengths of a name and its value, counted in bytes, fit in eight bytes.
pub open spec fn entry_fits(entry: EnvView) -> bool {
    encode_utf8(entry.name).len() <= u64::MAX && (entry.value is Some ==> encode_utf8(
        entry.value->0,
    ).len() <= u64::MAX)
}

/// The fields of the variables without the first one stand behind it.
proof fn env_bytes_front(env: Seq<EnvView>)
    requires
        env.len() > 0,
    ensures
        env_bytes(env) == env_entry_bytes(env[0]) + env_bytes(env.drop_first()),
    decreases env.len(),
{
    if env.len() == 1 {
        assert(env.drop_last() =~= Seq::<EnvView>::empty());
        assert(env.drop_first() =~= Seq::<EnvView>::empty());
        assert(env_bytes(env) =~= env_entry_bytes(env[0]) + env_bytes(env.drop_first()));
    } else {
        env_bytes_front(env.drop_last());
        assert(env.drop_last().drop_first() =~= env.drop_first().drop_last());
        assert(env_bytes(env) =~= env_entry_bytes(env[0]) + env_bytes(env.drop_first()));
    }
}

/// The fields of a variable tell where they end.
proof fn entries_are_delimited(a: EnvView, rest_a: Seq<u8>, b: EnvView, rest_b: Seq<u8>)
    requires
        env_entry_bytes(a) + rest_a == env_entry_bytes(b) + rest_b,
        entry_fits(a),
        entry_fits(b),
    ensures
        a == b,
        rest_a == rest_b,
{
    let value_a = match a.value {
        Some(value) => seq![1u8] + field_bytes(encode_utf8(value)),
        None => seq![0u8],
    };
    let value_b = match b.value {
        Some(value) => seq![1u8] + field_bytes(encode_utf8(value)),
        None => seq![0u8],
    };
    assert(env_entry_bytes(a) + rest_a =~= field_bytes(encode_utf8(a.name)) + (value_a + rest_a));
    assert(env_entry_bytes(b) + rest_b =~= field_bytes(encode_utf8(b.name)) + (value_b + rest_b));
    fields_are_delimited(
        encode_utf8(a.name),
        value_a + rest_a,
        encode_utf8(b.name),
        value_b + rest_b,
    );
    encode_utf8_decode_utf8(a.name);
    encode_utf8_decode_utf8(b.name);
    let x = value_a + rest_a;
    let y = value_b + rest_b;
    assert(x[0] == value_a[0]);
    assert(y[0] == value_b[0]);
    match (a.value, b.value) {
        (Some(va), Some(vb)) => {
            let fa = field_bytes(encode_utf8(va));
            let fb = field_bytes(encode_utf8(vb));
            assert(x.skip(1) =~= fa + rest_a);
            assert(y.skip(1) =~= fb + rest_b);
            fields_are_delimited(encode_utf8(va), rest_a, encode_utf8(vb), rest_b);
            encode_utf8_decode_utf8(va);
            encode_utf8_decode_utf8(vb);
        },
        (None, None) => {
            assert(x.skip(1) =~= rest_a);
            assert(y.skip(1) =~= rest_b);
        },
        _ => {},
    }
}

/// Equally many variables with the same fields are the same variables.
proof fn env_is_delimited(a: Seq<EnvView>, b: Seq<EnvView>)
    requires
        env_bytes(a) == env_bytes(b),
        a.len() == b.len(),
        env_fits(a),
        env_fits(b),
    ensures
        a == b,
    decreases a.len(),
{
    if a.len() == 0 {
        assert(a =~= b);
    } else {
        env_bytes_front(a);
        env_bytes_front(b);
        assert(entry_fits(a[0]));
        assert(entry_fits(b[0]));
        entries_are_delimited(a[0], env_bytes(a.drop_first()), b[0], env_bytes(b.drop_first()));
        let rest_a = a.drop_first();
        let rest_b = b.drop_first();
        assert forall|i: int| 0 <= i < rest_a.len() implies entry_fits(#[trigger] rest_a[i]) by {
            assert(entry_fits(a[i + 1]));
        }
        assert forall|i: int| 0 <= i < rest_b.len() implies entry_fits(#[trigger] rest_b[i]) by {
            assert(entry_fits(b[i + 1]));
        }
        env_is_delimited(rest_a, rest_b);
        assert(a =~= seq![a[0]] + rest_a);
        assert(b =~= seq![b[0]] + rest_b);
    }
}

/// Invocations with different arguments or a different environment are
/// identified by different byte strings: every value is delimited.
pub proof fn invocation_values_are_delimited(
    args_a: Seq<Seq<char>>,
    env_a: Seq<EnvView>,
    args_b: Seq<Seq<char>>,
    env_b: Seq<EnvView>,
)
    requires
        invocation_bytes(args_a, env_a) == invocation_bytes(args_b, env_b),
        texts_fit(args_a),
        texts_fit(args_b),
        env_fits(env_a),
        env_fits(env_b),
    ensures
        args_a == args_b,
        env_a == env_b,
{
    lemma_auto_spec_u64_to_from_le_bytes();
    let front = field_bytes(encode_utf8("moon-task-invocation-v1"@));
    let x = invocation_bytes(args_a, env_a);
    let y = invocation_bytes(args_b, env_b);
    let n = front.len() as int;
    let tail_a = count_bytes(env_a.len()) + env_bytes(env_a);
    let tail_b = count_bytes(env_b.len()) + env_bytes(env_b);
    assert(x.subrange(n, n + 8) =~= count_bytes(args_a.len()));
    assert(y.subrange(n, n + 8) =~= count_bytes(args_b.len()));
    assert(spec_u64_from_le_bytes(count_bytes(args_a.len())) == args_a.len() as u64);
    assert(spec_u64_from_le_bytes(count_bytes(args_b.len())) == args_b.len() as u64);
    assert(x.skip(n + 8) =~= args_bytes(args_a) + tail_a);
    assert(y.skip(n + 8) =~= args_bytes(args_b) + tail_b);
    args_are_delimited(args_a, tail_a, args_b, tail_b);
    assert(tail_a.subrange(0, 8) =~= count_bytes(env_a.len()));
    assert(tail_b.subrange(0, 8) =~= count_bytes(env_b.len()));
    assert(spec_u64_from_le_bytes(count_bytes(env_a.len())) == env_a.len() as u64);
    assert(spec_u64_from_le_bytes(count_bytes(env_b.len())) == env_b.len() as u64);
    assert(tail_a.skip(8) =~= env_bytes(env_a));
    assert(tail_b.skip(8) =~= env_bytes(env_b));
    env_is_delimited(env_a, env_b);
}

/// Adds a count to a byte string.
fn add_count(bytes: &mut Vec<u8>, n: usize)
    ensures
        final(bytes)@ == old(bytes)@ + count_bytes(n as nat),
{
    let mut count = u64_to_le_bytes(n as u64);
    bytes.append(&mut count);
}

/// Adds a text behind its length to a byte string.
fn add_field(bytes: &mut Vec<u8>, text: &str)
    ensures
        final(bytes)@ == old(bytes)@ + field_bytes(encode_utf8(text@)),
{
    let ghost start = bytes@;
    let mut field = text.as_bytes_vec();
    add_count(bytes, field.len());
    bytes.append(&mut field);
    assert(bytes@ =~= start + field_bytes(encode_utf8(text@)));
}

/// The byte string that identifies an invocation.
fn invocation_message(args: &Vec<String>, env: &Vec<EnvEntry>) -> (bytes: Vec<u8>)
    ensures
        bytes@ == invocation_bytes(views(args@), views(env@)),
{
    let mut bytes: Vec<u8> = Vec::new();
    add_field(&mut bytes, "moon-task-invocation-v1");
    add_count(&mut bytes, args.len());
    let ghost all_args = views(args@);
    let ghost all_env = views(env@);
    let ghost front = field_bytes(encode_utf8("moon-task-invocation-v1"@)) + count_bytes(
        all_args.len(),
    );
    assert(bytes@ =~= front + args_bytes(all_args.take(0)));
    let mut i: usize = 0;
    while i < args.len()
        invariant
            all_args == views(args@),
            i <= args@.len(),
            bytes@ == front + args_bytes(all_args.take(i as int)),
        decreases args.len() - i,
    {
        let ghost before = bytes@;
        add_field(&mut bytes, args[i].as_str());
        proof {
            let next = all_args.take(i + 1);
            assert(next.drop_last() =~= all_args.take(i as int));
            assert(next.last() == args@[i as int]@);
            assert(bytes@ =~= front + args_bytes(next));
        }
        i = i + 1;
    }
    assert(all_args.take(i as int) =~= all_args);
    add_count(&mut bytes, env.len());
    let ghost middle = front + args_bytes(all_args) + count_bytes(all_env.len());
    assert(bytes@ =~= middle + env_bytes(all_env.take(0)));
    let mut j: usize = 0;
    while j < env.len()
        invariant
            all_env == views(env@),
            j <= env@.len(),
            bytes@ == middle + env_bytes(all_env.take(j as int)),
        decreases env.len() - j,
    {
        let ghost before = bytes@;
        add_field(&mut bytes, env[j].name.as_str());
        match &env[j].value {
            Some(value) => {
                bytes.push(1u8);
                add_field(&mut bytes, value.as_str());
            },
            None => {
                bytes.push(0u8);
            },
        }
        proof {
            let next = all_env.take(j + 1);
            assert(next.drop_last() =~= all_env.take(j as int));
            assert(next.last() == env@[j as int]@);
            assert(bytes@ =~= before + env_entry_bytes(next.last()));
            assert(bytes@ =~= middle + env_bytes(next));
        }
        j = j + 1;
    }
    assert(all_env.take(j as int) =~= all_env);
    bytes
}

/// The identity of a task invocation.
pub struct InvocationView {
    pub task: TaskKeyView,
    pub variant: Option<Seq<char>>,
}

/// The text between a task and its variant.
pub open spec fn variant_separator() -> Seq<char> {
    seq!['@']
}

/// A hexadecimal digit.
pub open spec fn is_hex_digit(c: char) -> bool {
    ('0' <= c <= '9') || ('a' <= c <= 'f') || ('A' <= c <= 'F')
}

/// A variant is made of 64 hexadecimal digits.
pub open spec fn valid_variant(text: Seq<char>) -> bool {
    text.len() == 64 && forall|i: int| 0 <= i < text.len() ==> is_hex_digit(#[trigger] text[i])
}

/// The text of an invocation key.
pub open spec fn invocation_text(key: InvocationView) -> Seq<char> {
    match key.variant {
        Some(variant) => task_key_text(key.task) + variant_separator() + variant,
        None => task_key_text(key.task),
    }
}

/// What a text says as an invocation key.
pub open spec fn parse_invocation(text: Seq<char>) -> Result<InvocationView, KeyFault> {
    match split_last(text, variant_separator()) {
        Some(halves) => if !valid_variant(halves.1) {
            Err(KeyFault::VariantFormat)
        } else {
            match parse_task_key(halves.0) {
                Ok(task) => Ok(InvocationView { task, variant: Some(halves.1) }),
                Err(fault) => Err(fault),
            }
        },
        None => match parse_task_key(text) {
            Ok(task) => Ok(InvocationView { task, variant: None }),
            Err(fault) => Err(fault),
        },
    }
}

/// A valid invocation key.
pub open spec fn valid_invocation(key: InvocationView) -> bool {
    valid_task_key(key.task) && (key.variant is Some ==> valid_variant(key.variant->0))
}

/// An invocation key reads back from its own text. A key without a variant
/// does so where no part of the task key begins with `@`.
pub proof fn invocation_round_trip(key: InvocationView)
    requires
        valid_invocation(key),
        key.variant is None ==> !has_text(task_key_text(key.task), variant_separator()),
    ensures
        parse_invocation(invocation_text(key)) == Ok::<InvocationView, KeyFault>(key),
{
    task_key_round_trip(key.task);
    if key.variant is Some {
        let variant = key.variant->0;
        let head = task_key_text(key.task);
        let text = invocation_text(key);
        assert(!variant.contains('@')) by {
            if variant.contains('@') {
                let i = choose|i: int| 0 <= i < variant.len() && variant[i] == '@';
                assert(is_hex_digit(variant[i]));
            }
        }
        last_before_tail(head, '@', variant);
        split_last_at(text, variant_separator(), head.len() as int);
        assert(text.subrange(0, head.len() as int) =~= head);
        assert(text.subrange((head.len() + 1) as int, text.len() as int) =~= variant);
    }
}

/// The digits of a digest make a variant.
proof fn digest_is_variant(bytes: Seq<u8>)
    requires
        bytes.len() == 32,
    ensures
        valid_variant(hex_text(bytes)),
{
    let text = hex_text(bytes);
    assert forall|i: int| 0 <= i < text.len() implies is_hex_digit(#[trigger] text[i]) by {
        let byte = bytes[i / 2];
        assert(byte / 16 < 16);
        assert(byte % 16 < 16);
    }
}

/// The identity of a task invocation. Tasks without arguments and environment
/// keep the identity of the task.
#[derive(Debug, PartialEq, Eq, Hash)]
pub struct TaskInvocationKey {
    task: TaskKey,
    variant: Option<String>,
}

impl View for TaskInvocationKey {
    type V = InvocationView;

    closed spec fn view(&self) -> InvocationView {
        InvocationView { task: self.task@, variant: view_of(self.variant) }
    }
}

impl TaskInvocationKey {
    #[verifier::type_invariant]
    spec fn valid(self) -> bool {
        self.variant is Some ==> valid_variant(self.variant->0@)
    }

    /// The key of a task that is invoked with arguments and an environment.
    pub fn new(task: TaskKey, args: Vec<String>, env: Vec<EnvEntry>) -> (key: Self)
        ensures
            key@ == (InvocationView {
                task: task@,
                variant: invocation_variant(views(args@), views(env@)),
            }),
    {
        if args.len() == 0 && env.len() == 0 {
            return TaskInvocationKey { task, variant: None };
        }
        let env = sort_ranked(env);
        let message = invocation_message(&args, &env);
        let digest = blake3_hash(message.as_slice());
        proof {
            digest_is_variant(digest@);
        }
        TaskInvocationKey { task, variant: Some(to_hex(&digest)) }
    }

    /// The key of a task without arguments and environment.
    pub fn from_task(task: TaskKey) -> (key: Self)
        ensures
            key@ == (InvocationView { task: task@, variant: None }),
    {
        TaskInvocationKey { task, variant: None }
    }

    /// The task that is invoked.
    pub fn task_key(&self) -> (task: &TaskKey)
        ensures
            task@ == self@.task,
            valid_invocation(self@),
    {
        proof {
            use_type_invariant(self);
        }
        let _ = self.task.task_id();
        &self.task
    }

    /// The variant of the task.
    pub fn variant(&self) -> (variant: Option<&str>)
        ensures
            match variant {
                Some(text) => self@.variant == Some(text@),
                None => self@.variant is None,
            },
    {
        match &self.variant {
            Some(variant) => Some(variant.as_str()),
            None => None,
        }
    }

    /// The text of the key.
    pub fn to_text(&self) -> (text: String)
        ensures
            text@ == invocation_text(self@),
    {
        match &self.variant {
            Some(variant) => {
                proof {
                    reveal_strlit("@");
                    assert("@"@ =~= variant_separator());
                }
                join_two(self.task.to_text().as_str(), "@", variant.as_str())
            },
            None => self.task.to_text(),
        }
    }

    /// The key that a text names.
    pub fn parse(value: &str) -> (key: Result<Self, KeyError>)
        ensures
            outcome(key) == parse_invocation(value@),
    {
        proof {
            reveal_strlit("@");
            assert("@"@ =~= variant_separator());
        }
        match split_at_last(value, "@") {
            Some((task, variant)) => {
                if !is_variant(variant.as_str()) {
                    return Err(KeyError::VariantFormat);
                }
                match TaskKey::parse(task.as_str()) {
                    Ok(task) => Ok(TaskInvocationKey { task, variant: Some(variant) }),
                    Err(error) => Err(error),
                }
            },
            None => match TaskKey::parse(value) {
                Ok(task) => Ok(TaskInvocationKey { task, variant: None }),
                Err(error) => Err(error),
            },
        }
    }
}

/// Whether a text is a variant.
fn is_variant(text: &str) -> (valid: bool)
    ensures
        valid == valid_variant(text@),
{
    let chars = chars_of(text);
    if chars.len() != 64 {
        return false;
    }
    let mut i: usize = 0;
    while i < chars.len()
        invariant
            chars@ == text@,
            i <= chars@.len(),
            forall|j: int| 0 <= j < i ==> is_hex_digit(#[trigger] text@[j]),
        decreases chars.len() - i,
    {
        let c: char = chars[i];
        if !(('0' <= c && c <= '9') || ('a' <= c && c <= 'f') || ('A' <= c && c <= 'F')) {
            assert(!is_hex_digit(text@[i as int]));
            return false;
        }
        i = i + 1;
    }
    true
}

impl std::str::FromStr for TaskInvocationKey {
    type Err = KeyError;

    fn from_str(value: &str) -> (key: Result<Self, KeyError>)
        ensures
            outcome(key) == parse_invocation(value@),
    {
        TaskInvocationKey::parse(value)
    }
}

impl Clone for TaskInvocationKey {
    fn clone(&self) -> (copy: Self)
        ensures
            copy@ == self@,
    {
        proof {
            use_type_invariant(self);
        }
        let variant = match &self.variant {
            Some(variant) => Some(variant.clone()),
            None => None,
        };
        TaskInvocationKey { task: self.task.clone(), variant }
    }
}

impl Key for TaskInvocationKey {
    fn same_key(&self, other: &Self) -> bool {
        self.task.same_key(&other.task) && match (&self.variant, &other.variant) {
            (Some(a), Some(b)) => *a == *b,
            (None, None) => true,
            _ => false,
        }
    }

    fn copy_key(&self) -> Self {
        self.clone()
    }
}

/// Invocations are ordered by task, then by variant.
pub open spec fn invocation_less(a: InvocationView, b: InvocationView) -> bool {
    task_key_less(a.task, b.task) || (a.task == b.task && value_less(a.variant, b.variant))
}

/// The order on invocations is transitive.
proof fn invocation_less_transitive(a: InvocationView, b: InvocationView, c: InvocationView)
    requires
        invocation_less(a, b),
        invocation_less(b, c),
    ensures
        invocation_less(a, c),
{
    <TaskKey as Ranked>::before_irreflexive(a.task);
    if task_key_less(a.task, b.task) && task_key_less(b.task, c.task) {
        task_key_less_transitive(a.task, b.task, c.task);
    } else if a.task == b.task && b.task == c.task {
        if a.variant is Some && b.variant is Some && c.variant is Some {
            text_less_transitive(a.variant->0, b.variant->0, c.variant->0);
        }
    }
}

impl Ranked for TaskInvocationKey {
    open spec fn before(a: InvocationView, b: InvocationView) -> bool {
        invocation_less(a, b)
    }

    proof fn before_irreflexive(a: InvocationView) {
        <TaskKey as Ranked>::before_irreflexive(a.task);
        if a.variant is Some {
            text_less_irreflexive(a.variant->0);
        }
    }

    proof fn before_transitive(a: InvocationView, b: InvocationView, c: InvocationView) {
        invocation_less_transitive(a, b, c);
    }

    proof fn before_total(a: InvocationView, b: InvocationView, c: InvocationView) {
        task_key_less_total(a.task, c.task);
        if a.variant is Some && c.variant is Some {
            text_less_total(a.variant->0, c.variant->0);
        }
        if invocation_less(c, a) {
            invocation_less_transitive(c, a, b);
        }
    }

    fn is_before(&self, other: &Self) -> bool {
        if self.task.is_before(&other.task) {
            return true;
        }
        if !self.task.same_key(&other.task) {
            return false;
        }
        match (&self.variant, &other.variant) {
            (None, Some(_)) => true,
            (Some(a), Some(b)) => text_before(a.as_str(), b.as_str()),
            _ => false,
        }
    }
}

} // verus!
