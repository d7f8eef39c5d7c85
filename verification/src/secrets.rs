//! Secrets handed to the user script as environment variables, and the
//! masking of their values in captured output.

use std::borrow::Cow;

use vstd::prelude::*;
use vstd::string::to_string_from_display_ensures;
use vstd::utf8::encode_utf8;

use crate::text::{
    chars_of, contains_chars, contains_seq, lemma_replace_absent, lemma_replace_adds_nothing, lemma_replace_at_leftmost, occurs_at,
    lemma_replace_removes, prefixed, replace_all, replace_chars, shares_no_char, string_from_chars,
};

verus! {

broadcast use vstd::seq_lib::group_seq_properties;

/// One secret: the environment variable's name and its value.
pub type SecretPair = (Seq<char>, Seq<char>);

/// What a secret value is replaced with in masked text.
pub open spec fn mask_text() -> Seq<char> {
    seq!['*', '*', '*']
}

/// `t` with every value in `values` masked, in the order given.
pub open spec fn mask_all(t: Seq<char>, values: Seq<Seq<char>>) -> Seq<char>
    decreases values.len(),
{
    if values.len() == 0 {
        t
    } else {
        mask_all(replace_all(t, values[0], mask_text()), values.drop_first())
    }
}

/// The number of bytes in the UTF-8 encoding of `s` (what `str::len` counts).
pub open spec fn byte_len(s: Seq<char>) -> nat {
    encode_utf8(s).len()
}

/// The values of the given secrets, in order.
pub open spec fn secret_values(s: Seq<SecretPair>) -> Seq<Seq<char>> {
    s.map_values(|e: SecretPair| e.1)
}

/// The (name, value) characters of each pair of strings.
pub open spec fn pairs_view(v: Seq<(String, String)>) -> Seq<SecretPair> {
    v.map_values(|e: (String, String)| (e.0@, e.1@))
}

/// The name begins with a dot, as kubernetes secret-mount internals do.
pub open spec fn is_dotted(name: Seq<char>) -> bool {
    name.len() > 0 && name[0] == '.'
}

/// The characters with the Unicode White_Space property, which is what
/// `char::is_whitespace` tests and what `str::trim` strips: the 25 code points
/// U+0009-U+000D, U+0020, U+0085, U+00A0, U+1680, U+2000-U+200A, U+2028,
/// U+2029, U+202F, U+205F and U+3000.
pub open spec fn is_unicode_white_space(c: char) -> bool {
    let u = c as u32;
    ||| 0x9 <= u <= 0xD
    ||| u == 0x20
    ||| u == 0x85
    ||| u == 0xA0
    ||| u == 0x1680
    ||| 0x2000 <= u <= 0x200A
    ||| u == 0x2028
    ||| u == 0x2029
    ||| u == 0x202F
    ||| u == 0x205F
    ||| u == 0x3000
}

/// `s` without its leading white space.
pub open spec fn trim_start_white_space(s: Seq<char>) -> Seq<char>
    decreases s.len(),
{
    if s.len() > 0 && is_unicode_white_space(s[0]) {
        trim_start_white_space(s.drop_first())
    } else {
        s
    }
}

/// `s` without its trailing white space.
pub open spec fn trim_end_white_space(s: Seq<char>) -> Seq<char>
    decreases s.len(),
{
    if s.len() > 0 && is_unicode_white_space(s.last()) {
        trim_end_white_space(s.drop_last())
    } else {
        s
    }
}

/// What `str::trim` returns: the characters with leading and trailing
/// white space removed.
pub open spec fn trim_whitespace(s: Seq<char>) -> Seq<char> {
    trim_end_white_space(trim_start_white_space(s))
}

/// A secret file is taken when its name has no leading dot and its trimmed
/// content is not empty.
pub open spec fn admits(file: SecretPair) -> bool {
    !is_dotted(file.0) && trim_whitespace(file.1).len() > 0
}

/// The secrets taken from the given (name, content) files, in file order, with
/// trimmed values.
pub open spec fn admitted(files: Seq<SecretPair>) -> Seq<SecretPair>
    decreases files.len(),
{
    if files.len() == 0 {
        Seq::empty()
    } else {
        let rest = admitted(files.drop_last());
        let f = files.last();
        if admits(f) {
            rest.push((f.0, trim_whitespace(f.1)))
        } else {
            rest
        }
    }
}

/// The secrets whose value is `n` bytes long, in their order in `s`.
pub open spec fn with_byte_len(s: Seq<SecretPair>, n: nat) -> Seq<SecretPair> {
    s.filter(|e: SecretPair| byte_len(e.1) == n)
}

/// Values never get shorter (in bytes) from one secret to the next.
pub open spec fn longest_first(s: Seq<SecretPair>) -> bool {
    forall|i: int, j: int| 0 <= i < j < s.len() ==> byte_len(s[i].1) >= byte_len(s[j].1)
}

/// `r` is `s` sorted by value length, longest first, keeping the order of `s`
/// among values of equal length.
pub open spec fn stably_longest_first(r: Seq<SecretPair>, s: Seq<SecretPair>) -> bool {
    &&& longest_first(r)
    &&& forall|n: nat| #[trigger] with_byte_len(r, n) == with_byte_len(s, n)
}

/// Every secret has a non-empty value and a name without a leading dot, and
/// longer values come first.
pub open spec fn well_formed_secrets(s: Seq<SecretPair>) -> bool {
    &&& forall|i: int| 0 <= i < s.len() ==> (#[trigger] s[i]).1.len() > 0
    &&& forall|i: int| 0 <= i < s.len() ==> !is_dotted((#[trigger] s[i]).0)
    &&& longest_first(s)
}

/// Calls `str::trim`, whose documentation removes leading and trailing
/// whitespace as Unicode's White_Space property defines it.
#[verifier::external_body]
fn trim(s: &str) -> (r: &str)
    ensures
        r@ == trim_whitespace(s@),
{
    s.trim()
}

/// The length of a string in bytes.
fn byte_length(s: &str) -> (n: usize)
    ensures
        n == byte_len(s@),
{
    s.as_bytes().len()
}

/// Whether a file of the secrets directory with this name is read at all.
pub fn accepts_name(name: &str) -> (b: bool)
    ensures
        b == !is_dotted(name@),
{
    let chars = chars_of(name);
    !(chars.len() > 0 && chars[0] == '.')
}

/// Why the secrets directory could not be read.
#[derive(Debug)]
pub enum SecretsError {
    Io(std::io::Error),
}

/// The secrets loaded for a run, longest value first.
#[derive(Debug)]
pub struct Secrets {
    entries: Vec<(String, String)>,
}

impl View for Secrets {
    type V = Seq<SecretPair>;

    closed spec fn view(&self) -> Seq<SecretPair> {
        pairs_view(self.entries@)
    }
}

/// Inserting `x` just before the first shorter value keeps the secrets
/// ordered longest first.
proof fn lemma_insert_keeps_order(out: Seq<SecretPair>, x: SecretPair, p: int)
    requires
        0 <= p <= out.len(),
        longest_first(out),
        forall|j: int| 0 <= j < p ==> byte_len(out[j].1) >= byte_len(x.1),
        forall|j: int| p <= j < out.len() ==> byte_len(out[j].1) < byte_len(x.1),
    ensures
        longest_first(out.insert(p, x)),
{
    let ins = out.insert(p, x);
    assert forall|i: int, j: int| 0 <= i < j < ins.len() implies byte_len(ins[i].1) >= byte_len(
        ins[j].1,
    ) by {
        if j < p {
        } else if j == p {
        } else if i < p {
            assert(ins[j] == out[j - 1]);
        } else if i == p {
            assert(ins[j] == out[j - 1]);
        } else {
            assert(ins[j] == out[j - 1]);
            assert(ins[i] == out[i - 1]);
        }
    }
}

/// Inserting `x` just before the first shorter value places it after every
/// value of its own length, as appending it would.
proof fn lemma_insert_like_push(out: Seq<SecretPair>, x: SecretPair, p: int, n: nat)
    requires
        0 <= p <= out.len(),
        forall|j: int| p <= j < out.len() ==> byte_len(out[j].1) < byte_len(x.1),
    ensures
        with_byte_len(out.insert(p, x), n) == with_byte_len(out.push(x), n),
{
    let ins = out.insert(p, x);
    let pred = |e: SecretPair| byte_len(e.1) == n;
    let a = out.take(p);
    let b = out.skip(p);
    assert(ins =~= a + seq![x] + b);
    assert(out =~= a + b);
    Seq::filter_distributes_over_add(a + seq![x], b, pred);
    Seq::filter_distributes_over_add(a, seq![x], pred);
    Seq::filter_distributes_over_add(a, b, pred);
    out.lemma_filter_push(x, pred);
    assert(seq![x] =~= Seq::<SecretPair>::empty().push(x));
    Seq::<SecretPair>::empty().lemma_filter_push(x, pred);
    Seq::<SecretPair>::empty().lemma_all_neg_filter_empty(pred);
    assert(Seq::<SecretPair>::empty().filter(pred) =~= Seq::<SecretPair>::empty());
    if byte_len(x.1) == n {
        assert(b.all(|e: SecretPair| !pred(e))) by {
            assert forall|k: int| 0 <= k < b.len() implies !pred(b[k]) by {
                assert(b[k] == out[p + k]);
            }
        }
        b.lemma_all_neg_filter_empty(pred);
        assert(b.filter(pred) =~= Seq::<SecretPair>::empty());
        assert(a.filter(pred) + seq![x].filter(pred) + b.filter(pred) =~= (a.filter(pred)
            + b.filter(pred)).push(x));
    } else {
        assert(a.filter(pred) + seq![x].filter(pred) + b.filter(pred) =~= a.filter(pred)
            + b.filter(pred));
    }
}

impl Secrets {
    /// Every secret has a non-empty value and a name without a leading dot, and
    /// longer values come first.
    /// Every value of a `Secrets` keeps this, from construction on.
    #[verifier::type_invariant]
    pub closed spec fn wf(&self) -> bool {
        well_formed_secrets(self@)
    }

    /// The secrets of a directory from its regular files, given as (file name,
    /// file content): dot-named files and files whose trimmed content is empty
    /// are skipped, values are trimmed, and the result is sorted by value
    /// length in bytes, longest first, keeping file order among equal lengths.
    pub fn from_files(files: Vec<(String, String)>) -> (s: Secrets)
        ensures
            s.wf(),
            stably_longest_first(
                s@,
                admitted(pairs_view(files@)),
            ),
    {
        let ghost fv = pairs_view(files@);
        let mut out: Vec<(String, String)> = Vec::new();
        let mut i: usize = 0;
        assert(fv.take(0) =~= Seq::<SecretPair>::empty());
        while i < files.len()
            invariant
                i <= files@.len(),
                fv == pairs_view(files@),
                longest_first(pairs_view(out@)),
                forall|j: int|
                    0 <= j < out@.len() ==> (#[trigger] out@[j]).1@.len() > 0 && !is_dotted(
                        out@[j].0@,
                    ),
                forall|n: nat|
                    #[trigger] with_byte_len(
                        pairs_view(out@),
                        n,
                    ) == with_byte_len(admitted(fv.take(i as int)), n),
            decreases files@.len() - i,
        {
            let ghost ov = pairs_view(out@);
            let ghost f = fv[i as int];
            assert(fv.take(i + 1).drop_last() =~= fv.take(i as int));
            assert(fv.take(i + 1).last() == f);
            let (name, content) = &files[i];
            let value = trim(content.as_str());
            if accepts_name(name.as_str()) && !value.is_empty() {
                let x = (name.clone(), value.to_owned());
                let ghost xv = (x.0@, x.1@);
                let xlen = byte_length(x.1.as_str());
                let mut p: usize = 0;
                while p < out.len() && byte_length(out[p].1.as_str()) >= xlen
                    invariant
                        p <= out@.len(),
                        ov == pairs_view(out@),
                        xlen == byte_len(xv.1),
                        forall|j: int| 0 <= j < p ==> byte_len(ov[j].1) >= byte_len(xv.1),
                    decreases out@.len() - p,
                {
                    p = p + 1;
                }
                assert forall|j: int| p <= j < ov.len() implies byte_len(ov[j].1) < byte_len(
                    xv.1,
                ) by {
                    assert(byte_len(ov[p as int].1) < byte_len(xv.1));
                }
                proof {
                    lemma_insert_keeps_order(ov, xv, p as int);
                }
                assert(xv == (f.0, trim_whitespace(f.1)));
                assert(admits(f));
                assert(admitted(fv.take(i + 1)) == admitted(fv.take(i as int)).push(xv));
                let ghost out_before = out@;
                out.insert(p, x);
                assert(pairs_view(out@) =~= ov.insert(
                    p as int,
                    xv,
                ));
                assert forall|n: nat| #[trigger]
                    with_byte_len(
                        pairs_view(out@),
                        n,
                    ) == with_byte_len(admitted(fv.take(i + 1)), n) by {
                    let pred = |e: SecretPair| byte_len(e.1) == n;
                    ov.lemma_filter_push(xv, pred);
                    admitted(fv.take(i as int)).lemma_filter_push(xv, pred);
                    assert(with_byte_len(ov, n) == with_byte_len(admitted(fv.take(i as int)), n));
                    lemma_insert_like_push(ov, xv, p as int, n);
                }
                assert forall|j: int| 0 <= j < out@.len() implies (#[trigger] out@[j]).1@.len()
                    > 0 && !is_dotted(out@[j].0@) by {
                    if j > p {
                        assert(out@[j] == out_before[j - 1]);
                    } else if j < p {
                        assert(out@[j] == out_before[j]);
                    }
                }
            }
            i = i + 1;
        }
        assert(fv.take(files@.len() as int) =~= fv);
        assert(well_formed_secrets(pairs_view(out@))) by {
            let v = pairs_view(out@);
            assert forall|i: int| 0 <= i < v.len() implies (#[trigger] v[i]).1.len() > 0 by {
                assert(v[i] == (out@[i].0@, out@[i].1@));
            }
            assert forall|i: int| 0 <= i < v.len() implies !is_dotted((#[trigger] v[i]).0) by {
                assert(v[i] == (out@[i].0@, out@[i].1@));
            }
        }
        Secrets { entries: out }
    }

    /// The (name, value) pairs to set in the user script's environment, in
    /// masking order.
    pub fn env(&self) -> (r: Vec<(&str, &str)>)
        ensures
            r@.len() == self@.len(),
            forall|i: int| 0 <= i < r@.len() ==> (r@[i].0@, r@[i].1@) == #[trigger] self@[i],
    {
        let mut r: Vec<(&str, &str)> = Vec::new();
        let mut i: usize = 0;
        while i < self.entries.len()
            invariant
                i <= self@.len(),
                self@.len() == self.entries@.len(),
                r@.len() == i,
                forall|j: int| 0 <= j < i ==> (r@[j].0@, r@[j].1@) == #[trigger] self@[j],
            decreases self@.len() - i,
        {
            let (name, value) = &self.entries[i];
            r.push((name.as_str(), value.as_str()));
            i = i + 1;
        }
        r
    }

    /// Whether no secret was loaded.
    pub fn is_empty(&self) -> (b: bool)
        ensures
            b == (self@.len() == 0),
    {
        self.entries.len() == 0
    }

    /// The text with every occurrence of each secret value, longest value
    /// first, replaced by `***`. The text itself comes back, not a copy,
    /// exactly when no secret value occurs in it.
    pub fn mask<'a>(&self, text: &'a str) -> (r: Cow<'a, str>)
        ensures
            r@ == mask_all(text@, secret_values(self@)),
            r is Borrowed <==> forall|i: int|
                0 <= i < self@.len() ==> !contains_seq(text@, #[trigger] self@[i].1),
            r matches Cow::Borrowed(s) ==> s == text,
    {
        proof {
            use_type_invariant(self);
        }
        let ghost vals = secret_values(self@);
        let mut star: Vec<char> = Vec::new();
        star.push('*');
        star.push('*');
        star.push('*');
        assert(star@ =~= mask_text());
        let mut current = chars_of(text);
        let mut owned = false;
        let mut i: usize = 0;
        assert(vals.skip(0) =~= vals);
        while i < self.entries.len()
            invariant
                self.wf(),
                vals == secret_values(self@),
                star@ == mask_text(),
                i <= self@.len(),
                self@.len() == self.entries@.len(),
                mask_all(text@, vals) == mask_all(current@, vals.skip(i as int)),
                owned <==> exists|j: int| 0 <= j < i && contains_seq(text@, #[trigger] vals[j]),
                !owned ==> current@ == text@,
            decreases self@.len() - i,
        {
            let value = chars_of(self.entries[i].1.as_str());
            assert(value@ == vals[i as int]);
            assert(value@.len() > 0) by {
                assert(self@[i as int].1.len() > 0);
            }
            assert(vals.skip(i as int).drop_first() =~= vals.skip(i + 1));
            assert(vals.skip(i as int)[0] == vals[i as int]);
            if contains_chars(&current, &value) {
                current = replace_chars(&current, &value, &star);
                owned = true;
            } else {
                proof {
                    lemma_replace_absent(current@, value@, mask_text());
                }
            }
            i = i + 1;
        }
        assert(vals.skip(i as int) =~= Seq::<Seq<char>>::empty());
        assert(owned <==> !forall|k: int|
            0 <= k < self@.len() ==> !contains_seq(text@, #[trigger] self@[k].1)) by {
            if owned {
                let j = choose|j: int| 0 <= j < i && contains_seq(text@, #[trigger] vals[j]);
                assert(vals[j] == self@[j].1);
            } else {
                assert forall|k: int| 0 <= k < self@.len() implies !contains_seq(
                    text@,
                    #[trigger] self@[k].1,
                ) by {
                    assert(vals[k] == self@[k].1);
                }
            }
        }
        if owned {
            Cow::Owned(string_from_chars(&current))
        } else {
            Cow::Borrowed(text)
        }
    }
}

impl Default for Secrets {
    /// No secrets.
    fn default() -> (s: Self)
        ensures
            s.wf(),
            s@ == Seq::<SecretPair>::empty(),
    {
        let entries: Vec<(String, String)> = Vec::new();
        assert(pairs_view(entries@) =~= Seq::<SecretPair>::empty());
        Secrets { entries }
    }
}

impl Clone for Secrets {
    /// The same secrets in the same order.
    fn clone(&self) -> (c: Self)
        ensures
            c@ == self@,
            c.wf(),
    {
        proof {
            use_type_invariant(self);
        }
        let mut entries: Vec<(String, String)> = Vec::new();
        let mut i: usize = 0;
        while i < self.entries.len()
            invariant
                i <= self.entries@.len(),
                pairs_view(entries@) == pairs_view(self.entries@).take(i as int),
            decreases self.entries@.len() - i,
        {
            let ghost prev = entries@;
            let (name, value) = &self.entries[i];
            let pair = (name.clone(), value.clone());
            assert(pair.0@ == self.entries@[i as int].0@);
            assert(pair.1@ == self.entries@[i as int].1@);
            entries.push(pair);
            assert(entries@ == prev.push(pair));
            assert(pairs_view(entries@) =~= pairs_view(prev).push((pair.0@, pair.1@)));
            assert(pairs_view(self.entries@).take(i + 1) =~= pairs_view(self.entries@).take(
                i as int,
            ).push(pairs_view(self.entries@)[i as int]));
            i = i + 1;
        }
        assert(pairs_view(self.entries@).take(i as int) =~= pairs_view(self.entries@));
        Secrets { entries }
    }
}

/// A file named without a leading dot whose content is not all white space:
/// exactly the files that become secrets.
pub open spec fn kept_file(f: SecretPair) -> bool {
    !(f.0.len() > 0 && f.0[0] == '.') && trim_whitespace(f.1).len() > 0
}

/// The secret a kept file becomes: its name and its trimmed content.
pub open spec fn secret_of(f: SecretPair) -> SecretPair {
    (f.0, trim_whitespace(f.1))
}

proof fn lemma_admitted_members(files: Seq<SecretPair>)
    ensures
        forall|i: int|
            0 <= i < files.len() && kept_file(files[i]) ==> admitted(files).contains(
                #[trigger] secret_of(files[i]),
            ),
        forall|x: SecretPair|
            #[trigger] admitted(files).contains(x) ==> exists|i: int|
                0 <= i < files.len() && kept_file(files[i]) && x == #[trigger] secret_of(files[i]),
    decreases files.len(),
{
    if files.len() > 0 {
        let init = files.drop_last();
        let f = files.last();
        lemma_admitted_members(init);
        let rest = admitted(init);
        assert forall|i: int|
            0 <= i < files.len() && kept_file(files[i]) implies admitted(files).contains(
            #[trigger] secret_of(files[i]),
        ) by {
            if i < files.len() - 1 {
                assert(files[i] == init[i]);
                assert(rest.contains(secret_of(init[i])));
                let k = choose|k: int| 0 <= k < rest.len() && rest[k] == secret_of(init[i]);
                if admits(f) {
                    assert(rest.push(secret_of(f))[k] == rest[k]);
                }
            } else {
                assert(files[i] == f);
                assert(admits(f));
                assert(rest.push(secret_of(f))[rest.len() as int] == secret_of(f));
            }
        }
        assert forall|x: SecretPair| #[trigger] admitted(files).contains(x) implies exists|i: int|
            0 <= i < files.len() && kept_file(files[i]) && x == #[trigger] secret_of(files[i]) by {
            let k = choose|k: int| 0 <= k < admitted(files).len() && admitted(files)[k] == x;
            if k < rest.len() {
                assert(rest.contains(x)) by {
                    if admits(f) {
                        assert(rest.push(secret_of(f))[k] == rest[k]);
                    }
                }
                let i = choose|i: int|
                    0 <= i < init.len() && kept_file(init[i]) && x == #[trigger] secret_of(init[i]);
                assert(files[i] == init[i]);
            } else {
                assert(admits(f));
                assert(x == secret_of(f));
                assert(files[files.len() - 1] == f);
            }
        }
    }
}

/// The secrets loaded from a directory are exactly its kept files: every file
/// named without a leading dot whose trimmed content is not empty is loaded as
/// (name, trimmed content), whatever that content holds, and every loaded
/// secret is such a file.
pub proof fn lemma_loaded_secrets_are_the_kept_files(files: Seq<SecretPair>, r: Seq<SecretPair>)
    requires
        stably_longest_first(r, admitted(files)),
    ensures
        forall|i: int|
            0 <= i < files.len() && kept_file(files[i]) ==> r.contains(#[trigger] secret_of(files[i])),
        forall|x: SecretPair|
            #[trigger] r.contains(x) ==> exists|i: int|
                0 <= i < files.len() && kept_file(files[i]) && x === #[trigger] secret_of(files[i]),
{
    lemma_admitted_members(files);
    let a = admitted(files);
    assert forall|i: int| 0 <= i < files.len() && kept_file(files[i]) implies r.contains(
        #[trigger] secret_of(files[i]),
    ) by {
        let x = secret_of(files[i]);
        let n = byte_len(x.1);
        let pred = |e: SecretPair| byte_len(e.1) == n;
        assert(a.contains(x));
        let k = choose|k: int| 0 <= k < a.len() && a[k] == x;
        broadcast use vstd::seq_lib::group_filter_ensures;

        assert(with_byte_len(a, n).contains(x));
        assert(with_byte_len(r, n) == with_byte_len(a, n));
        r.lemma_filter_contains_rev(pred, x);
    }
    assert forall|x: SecretPair| #[trigger] r.contains(x) implies exists|i: int|
        0 <= i < files.len() && kept_file(files[i]) && x === #[trigger] secret_of(files[i]) by {
        let k = choose|k: int| 0 <= k < r.len() && r[k] == x;
        lemma_loaded_secret_is_kept_file(files, r, k);
    }
}

proof fn lemma_loaded_secret_is_kept_file(files: Seq<SecretPair>, r: Seq<SecretPair>, k: int)
    requires
        stably_longest_first(r, admitted(files)),
        0 <= k < r.len(),
    ensures
        exists|i: int|
            0 <= i < files.len() && kept_file(files[i]) && r[k] === #[trigger] secret_of(files[i]),
{
    broadcast use vstd::seq_lib::group_filter_ensures;

    lemma_admitted_members(files);
    let a = admitted(files);
    let x = r[k];
    let n = byte_len(x.1);
    let pred = |e: SecretPair| byte_len(e.1) == n;
    assert(r.contains(x));
    assert(pred(x));
    assert(r.filter(pred).contains(x));
    assert(with_byte_len(r, n) == with_byte_len(a, n));
    assert(with_byte_len(a, n) == a.filter(pred));
    a.lemma_filter_contains_rev(pred, x);
    assert(a.contains(x));
    let i = choose|i: int|
        0 <= i < files.len() && kept_file(files[i]) && x == #[trigger] secret_of(files[i]);
    assert(0 <= i < files.len() && kept_file(files[i]) && r[k] === secret_of(files[i]));
}

/// Masking with one secret value replaces it as `str::replace` does, whatever
/// characters the value holds (a `*` among them).
pub proof fn lemma_mask_one_value(t: Seq<char>, v: Seq<char>)
    ensures
        mask_all(t, seq![v]) == replace_all(t, v, mask_text()),
{
    assert(seq![v].drop_first() =~= Seq::<Seq<char>>::empty());
    assert(mask_all(replace_all(t, v, mask_text()), Seq::<Seq<char>>::empty()) == replace_all(
        t,
        v,
        mask_text(),
    ));
}

/// Masking with the values of `a` and then of `b` is masking with `a`
/// followed by `b`: every value is applied, in list order, to what the values
/// before it left.
pub proof fn lemma_mask_composes(t: Seq<char>, a: Seq<Seq<char>>, b: Seq<Seq<char>>)
    ensures
        mask_all(t, a + b) == mask_all(mask_all(t, a), b),
    decreases a.len(),
{
    if a.len() == 0 {
        assert(a + b =~= b);
    } else {
        assert((a + b).drop_first() =~= a.drop_first() + b);
        assert((a + b)[0] == a[0]);
        lemma_mask_composes(replace_all(t, a[0], mask_text()), a.drop_first(), b);
    }
}

/// Every occurrence of a secret value is masked, whatever characters the
/// value holds: the text before its leftmost occurrence is kept, that
/// occurrence becomes `***`, and the text after it is masked the same way. A
/// text without the value is left as it is.
pub proof fn lemma_mask_replaces_each_occurrence(t: Seq<char>, v: Seq<char>, i: int)
    requires
        v.len() > 0,
        occurs_at(t, v, i),
        forall|j: int| 0 <= j < i ==> !occurs_at(t, v, j),
    ensures
        mask_all(t, seq![v]) == t.take(i) + seq!['*', '*', '*'] + mask_all(
            t.skip(i + v.len()),
            seq![v],
        ),
{
    lemma_mask_one_value(t, v);
    lemma_mask_one_value(t.skip(i + v.len()), v);
    lemma_replace_at_leftmost(t, v, mask_text(), i);
}

/// A text in which a secret value does not occur is not changed by masking
/// with that value.
pub proof fn lemma_mask_leaves_text_without_value(t: Seq<char>, v: Seq<char>)
    requires
        v.len() > 0,
        !contains_seq(t, v),
    ensures
        mask_all(t, seq![v]) == t,
{
    lemma_mask_one_value(t, v);
    lemma_replace_absent(t, v, mask_text());
}

/// Masking with secrets that hold no `*` leaves no secret value in the text:
/// whatever the text, none of the values occurs in the masked result.
pub proof fn lemma_mask_hides_every_secret(text: Seq<char>, values: Seq<Seq<char>>)
    requires
        forall|i: int| 0 <= i < values.len() ==> (#[trigger] values[i]).len() > 0,
        forall|i: int, k: int|
            0 <= i < values.len() && 0 <= k < values[i].len() ==> #[trigger] values[i][k] != '*',
    ensures
        forall|i: int|
            0 <= i < values.len() ==> !contains_seq(mask_all(text, values), #[trigger] values[i]),
{
    assert forall|i: int| 0 <= i < values.len() implies shares_no_char(
        #[trigger] values[i],
        mask_text(),
    ) by {
        assert forall|a: int, b: int|
            0 <= a < values[i].len() && 0 <= b < mask_text().len() implies values[i][a]
            != mask_text()[b] by {
            assert(values[i][a] != '*');
        }
    }
    lemma_mask_keeps_hidden(text, values, Seq::empty());
}

/// When no loaded secret value holds a `*`, no secret value occurs in any
/// text that `Secrets::mask` has masked.
pub proof fn lemma_masked_text_holds_no_secret(secrets: &Secrets, text: Seq<char>)
    requires
        secrets.wf(),
        forall|i: int, k: int|
            0 <= i < secrets@.len() && 0 <= k < secrets@[i].1.len() ==> #[trigger] secrets@[i].1[k]
                != '*',
    ensures
        forall|i: int|
            0 <= i < secrets@.len() ==> !contains_seq(
                mask_all(text, secret_values(secrets@)),
                #[trigger] secrets@[i].1,
            ),
{
    let vals = secret_values(secrets@);
    assert forall|i: int| 0 <= i < vals.len() implies (#[trigger] vals[i]).len() > 0 by {
        assert(vals[i] == secrets@[i].1);
    }
    assert forall|i: int, k: int| 0 <= i < vals.len() && 0 <= k < vals[i].len() implies #[trigger] vals[i][k]
        != '*' by {
        assert(vals[i] == secrets@[i].1);
        assert(secrets@[i].1[k] != '*');
    }
    lemma_mask_hides_every_secret(text, vals);
    assert forall|i: int| 0 <= i < secrets@.len() implies !contains_seq(
        mask_all(text, vals),
        #[trigger] secrets@[i].1,
    ) by {
        assert(vals[i] == secrets@[i].1);
    }
}

proof fn lemma_mask_keeps_hidden(t: Seq<char>, values: Seq<Seq<char>>, done: Seq<Seq<char>>)
    requires
        forall|i: int| 0 <= i < values.len() ==> (#[trigger] values[i]).len() > 0,
        forall|i: int| 0 <= i < values.len() ==> shares_no_char(#[trigger] values[i], mask_text()),
        forall|i: int| 0 <= i < done.len() ==> (#[trigger] done[i]).len() > 0,
        forall|i: int| 0 <= i < done.len() ==> shares_no_char(#[trigger] done[i], mask_text()),
        forall|i: int| 0 <= i < done.len() ==> !contains_seq(t, #[trigger] done[i]),
    ensures
        forall|i: int| 0 <= i < values.len() ==> !contains_seq(mask_all(t, values), #[trigger] values[i]),
        forall|i: int| 0 <= i < done.len() ==> !contains_seq(mask_all(t, values), #[trigger] done[i]),
    decreases values.len(),
{
    if values.len() > 0 {
        let v = values[0];
        let t1 = replace_all(t, v, mask_text());
        lemma_replace_removes(t, v, mask_text());
        assert forall|i: int| 0 <= i < done.len() implies !contains_seq(t1, #[trigger] done[i]) by {
            lemma_replace_adds_nothing(t, v, mask_text(), done[i]);
        }
        let done1 = done.push(v);
        let rest = values.drop_first();
        assert forall|i: int| 0 <= i < done1.len() implies !contains_seq(t1, #[trigger] done1[i]) by {
            if i < done.len() {
                assert(done1[i] == done[i]);
            }
        }
        lemma_mask_keeps_hidden(t1, rest, done1);
        assert(mask_all(t, values) == mask_all(t1, rest));
        assert forall|i: int| 0 <= i < values.len() implies !contains_seq(
            mask_all(t, values),
            #[trigger] values[i],
        ) by {
            if i == 0 {
                assert(done1[done.len() as int] == v);
            } else {
                assert(values[i] == rest[i - 1]);
            }
        }
        assert forall|i: int| 0 <= i < done.len() implies !contains_seq(
            mask_all(t, values),
            #[trigger] done[i],
        ) by {
            assert(done1[i] == done[i]);
        }
    }
}

impl SecretsError {
    /// `m` is this error's message.
    pub open spec fn describes(&self, m: Seq<char>) -> bool {
        match self {
            SecretsError::Io(e) => exists|d: String|
                #[trigger] to_string_from_display_ensures::<std::io::Error>(e, d) && m
                    == "Failed to read secrets directory: "@ + d@,
        }
    }

    /// The error's message.
    pub fn message(&self) -> (m: String)
        ensures
            self.describes(m@),
    {
        match self {
            SecretsError::Io(e) => prefixed(
                "Failed to read secrets directory: ",
                e.to_string().as_str(),
            ),
        }
    }
}

} // verus!
