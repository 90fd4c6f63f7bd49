//! The rules of the shell-script backend: which script serves which request,
//! how the volume script's output reads, and which files count as audio and
//! in what order they are listed.
use vstd::multiset::Multiset;
use vstd::prelude::*;

use crate::text::{
    chars_of, ends_with, ends_with_str, parse_u8, parse_unsigned_spec, string_of_range, trim,
    trimmed, IntErrorKind,
};

verus! {

/// A request that the shell backend serves with a script.
#[derive(Clone, Copy, Debug, PartialEq, Eq, Structural)]
pub enum ScriptAction {
    Speak,
    Play,
    Stop,
    GetVolume,
    SetVolume,
}

/// The script for a request; ARM boards have their own variants of all
/// but the stop script.
pub open spec fn script_of(action: ScriptAction, is_arm: bool) -> Seq<char> {
    match action {
        ScriptAction::Speak => if is_arm {
            "speak_arm.sh"@
        } else {
            "speak.sh"@
        },
        ScriptAction::Play => if is_arm {
            "play_arm.sh"@
        } else {
            "play.sh"@
        },
        ScriptAction::Stop => "kill.sh"@,
        ScriptAction::GetVolume => if is_arm {
            "get_vol_arm.sh"@
        } else {
            "get_vol.sh"@
        },
        ScriptAction::SetVolume => if is_arm {
            "set_vol_arm.sh"@
        } else {
            "set_vol.sh"@
        },
    }
}

/// The file name of the script that serves `action`.
pub fn script_name(action: ScriptAction, is_arm: bool) -> (name: &'static str)
    ensures
        name@ == script_of(action, is_arm),
{
    match action {
        ScriptAction::Speak => if is_arm {
            "speak_arm.sh"
        } else {
            "speak.sh"
        },
        ScriptAction::Play => if is_arm {
            "play_arm.sh"
        } else {
            "play.sh"
        },
        ScriptAction::Stop => "kill.sh",
        ScriptAction::GetVolume => if is_arm {
            "get_vol_arm.sh"
        } else {
            "get_vol.sh"
        },
        ScriptAction::SetVolume => if is_arm {
            "set_vol_arm.sh"
        } else {
            "set_vol.sh"
        },
    }
}

/// Reads the volume script's output: a `u8`, surrounding white space aside.
pub fn parse_volume_output(out: &str) -> (r: Result<u8, IntErrorKind>)
    ensures
        match parse_unsigned_spec(trimmed(out@), 255) {
            Ok(n) => r == Ok::<u8, IntErrorKind>(n as u8),
            Err(e) => r == Err::<u8, IntErrorKind>(e),
        },
{
    let t = trim(out);
    parse_u8(t.as_str())
}

// ---------------------------------------------------------------------------
// Audio file names
// ---------------------------------------------------------------------------

/// The name an audio file is listed under: its file name without the `.mp3`
/// extension, for a file whose extension is `mp3` (a name that is only
/// `.mp3` has no extension).
pub open spec fn mp3_stem_of(file_name: Seq<char>) -> Option<Seq<char>> {
    if ends_with(file_name, ".mp3"@) && file_name.len() > (".mp3"@).len() {
        Some(file_name.take(file_name.len() - (".mp3"@).len()))
    } else {
        None
    }
}

/// The listed name of an audio file, or `None` for a file that is no MP3.
pub fn mp3_stem(file_name: &str) -> (stem: Option<String>)
    ensures
        match mp3_stem_of(file_name@) {
            Some(s) => stem matches Some(t) && t@ == s,
            None => stem is None,
        },
{
    let v = chars_of(file_name);
    let ext_len = chars_of(".mp3").len();
    if ends_with_str(&v, ".mp3") && v.len() > ext_len {
        let s = string_of_range(&v, 0, v.len() - ext_len);
        assert(v@.subrange(0, v@.len() - ext_len) == v@.take(v@.len() - ext_len));
        Some(s)
    } else {
        None
    }
}

/// The listed names of the MP3 files among `names`, in order.
pub open spec fn mp3_stems(names: Seq<Seq<char>>) -> Seq<Seq<char>>
    decreases names.len(),
{
    if names.len() == 0 {
        Seq::empty()
    } else {
        match mp3_stem_of(names.last()) {
            Some(s) => mp3_stems(names.drop_last()).push(s),
            None => mp3_stems(names.drop_last()),
        }
    }
}

/// Lexicographic order by code point, the order of `String`'s `Ord` (UTF-8
/// keeps code point order byte by byte).
pub open spec fn lex_le(a: Seq<char>, b: Seq<char>) -> bool
    decreases a.len(),
{
    if a.len() == 0 {
        true
    } else if b.len() == 0 {
        false
    } else if a[0] != b[0] {
        (a[0] as u32) < (b[0] as u32)
    } else {
        lex_le(a.drop_first(), b.drop_first())
    }
}

/// Any two texts are ordered one way or the other.
pub proof fn lemma_lex_total(a: Seq<char>, b: Seq<char>)
    ensures
        lex_le(a, b) || lex_le(b, a),
    decreases a.len(),
{
    if a.len() > 0 && b.len() > 0 {
        if a[0] == b[0] {
            lemma_lex_total(a.drop_first(), b.drop_first());
        } else {
            vstd::utf8::char_u32_cast(a[0], a[0] as u32);
            vstd::utf8::char_u32_cast(b[0], b[0] as u32);
        }
    }
}

/// The order is transitive.
pub proof fn lemma_lex_transitive(a: Seq<char>, b: Seq<char>, c: Seq<char>)
    requires
        lex_le(a, b),
        lex_le(b, c),
    ensures
        lex_le(a, c),
    decreases a.len(),
{
    if a.len() > 0 && b.len() > 0 && c.len() > 0 && a[0] == b[0] && b[0] == c[0] {
        lemma_lex_transitive(a.drop_first(), b.drop_first(), c.drop_first());
    }
}

/// Texts ordered both ways are equal.
pub proof fn lemma_lex_antisymmetric(a: Seq<char>, b: Seq<char>)
    requires
        lex_le(a, b),
        lex_le(b, a),
    ensures
        a == b,
    decreases a.len(),
{
    if a.len() > 0 && b.len() > 0 {
        lemma_lex_antisymmetric(a.drop_first(), b.drop_first());
        assert(a == seq![a[0]] + a.drop_first());
        assert(b == seq![b[0]] + b.drop_first());
    }
}

/// Whether `s` is in ascending order.
pub open spec fn lex_sorted(s: Seq<Seq<char>>) -> bool {
    forall|i: int, j: int| 0 <= i < j < s.len() ==> lex_le(#[trigger] s[i], #[trigger] s[j])
}

/// Two ascending arrangements of the same texts are the same list: the
/// order that `sort_names` gives is the only one.
pub proof fn lemma_sorted_permutations_equal(a: Seq<Seq<char>>, b: Seq<Seq<char>>)
    requires
        lex_sorted(a),
        lex_sorted(b),
        a.to_multiset() == b.to_multiset(),
    ensures
        a == b,
    decreases a.len(),
{
    broadcast use vstd::seq_lib::group_to_multiset_ensures;
    assert(a.len() == a.to_multiset().len());
    assert(b.len() == b.to_multiset().len());
    if a.len() > 0 {
        assert(a.contains(a[0]));
        assert(b.to_multiset().count(a[0]) > 0);
        assert(b.contains(a[0]));
        assert(b.contains(b[0]));
        assert(a.to_multiset().count(b[0]) > 0);
        assert(a.contains(b[0]));
        let i = choose|i: int| 0 <= i < b.len() && b[i] == a[0];
        let j = choose|j: int| 0 <= j < a.len() && a[j] == b[0];
        if i > 0 {
            assert(lex_le(b[0], b[i]));
        } else {
            lemma_lex_total(b[0], b[0]);
        }
        if j > 0 {
            assert(lex_le(a[0], a[j]));
        } else {
            lemma_lex_total(a[0], a[0]);
        }
        lemma_lex_antisymmetric(a[0], b[0]);
        a.to_multiset_ensures();
        b.to_multiset_ensures();
        assert(a.remove(0) == a.drop_first());
        assert(b.remove(0) == b.drop_first());
        assert(a.drop_first().to_multiset() == b.drop_first().to_multiset());
        assert(lex_sorted(a.drop_first())) by {
            assert forall|x: int, y: int| 0 <= x < y < a.drop_first().len() implies lex_le(
                #[trigger] a.drop_first()[x],
                #[trigger] a.drop_first()[y],
            ) by {
                assert(lex_le(a[x + 1], a[y + 1]));
            }
        }
        assert(lex_sorted(b.drop_first())) by {
            assert forall|x: int, y: int| 0 <= x < y < b.drop_first().len() implies lex_le(
                #[trigger] b.drop_first()[x],
                #[trigger] b.drop_first()[y],
            ) by {
                assert(lex_le(b[x + 1], b[y + 1]));
            }
        }
        lemma_sorted_permutations_equal(a.drop_first(), b.drop_first());
        assert(a == seq![a[0]] + a.drop_first());
        assert(b == seq![b[0]] + b.drop_first());
    }
}

/// Compares two texts in `lex_le` order.
pub fn lex_le_exec(a: &str, b: &str) -> (r: bool)
    ensures
        r == lex_le(a@, b@),
{
    let va = chars_of(a);
    let vb = chars_of(b);
    let mut i: usize = 0;
    assert(va@.skip(0) == va@);
    assert(vb@.skip(0) == vb@);
    while i < va.len() && i < vb.len() && va[i] == vb[i]
        invariant
            i <= va@.len(),
            i <= vb@.len(),
            lex_le(va@, vb@) == lex_le(va@.skip(i as int), vb@.skip(i as int)),
        decreases va@.len() - i,
    {
        assert(va@.skip(i as int).drop_first() == va@.skip(i + 1));
        assert(vb@.skip(i as int).drop_first() == vb@.skip(i + 1));
        i = i + 1;
    }
    if i == va.len() {
        true
    } else if i == vb.len() {
        false
    } else {
        (va[i] as u32) < (vb[i] as u32)
    }
}

/// The views of a list of strings.
pub open spec fn views(v: Seq<String>) -> Seq<Seq<char>> {
    v.map_values(|s: String| s@)
}

/// Sorts `names` into ascending `lex_le` order.
pub fn sort_names(names: Vec<String>) -> (out: Vec<String>)
    ensures
        lex_sorted(views(out@)),
        views(out@).to_multiset() == views(names@).to_multiset(),
{
    broadcast use vstd::seq_lib::group_to_multiset_ensures;
    let mut rest = names;
    let mut out: Vec<String> = Vec::new();
    let ghost input = views(rest@);
    while rest.len() > 0
        invariant
            lex_sorted(views(out@)),
            views(out@).to_multiset().add(views(rest@).to_multiset()) == input.to_multiset(),
            forall|i: int, j: int|
                0 <= i < out@.len() && 0 <= j < rest@.len() ==> lex_le(
                    #[trigger] out@[i]@,
                    #[trigger] rest@[j]@,
                ),
        decreases rest@.len(),
    {
        let n = rest.len();
        let mut best: usize = 0;
        let mut j: usize = 1;
        proof {
            lemma_lex_total(rest@[0]@, rest@[0]@);
        }
        while j < n
            invariant
                n == rest@.len(),
                best < n,
                1 <= j <= n,
                forall|k: int| 0 <= k < j ==> lex_le(rest@[best as int]@, #[trigger] rest@[k]@),
            decreases n - j,
        {
            proof {
                lemma_lex_total(rest@[best as int]@, rest@[j as int]@);
            }
            if !lex_le_exec(rest[best].as_str(), rest[j].as_str()) {
                proof {
                    assert forall|k: int| 0 <= k < j + 1 implies lex_le(
                        rest@[j as int]@,
                        #[trigger] rest@[k]@,
                    ) by {
                        if k < j {
                            lemma_lex_transitive(rest@[j as int]@, rest@[best as int]@, rest@[k]@);
                        } else {
                            lemma_lex_total(rest@[j as int]@, rest@[k]@);
                        }
                    }
                }
                best = j;
            } else {
                proof {
                    assert(lex_le(rest@[best as int]@, rest@[j as int]@));
                }
            }
            j = j + 1;
        }
        proof {
            lemma_lex_total(rest@[best as int]@, rest@[0]@);
        }
        let ghost old_rest = rest@;
        let ghost old_out = out@;
        let m = rest.remove(best);
        out.push(m);
        proof {
            assert(views(old_rest).remove(best as int) == views(rest@));
            assert(views(old_out).push(m@) == views(out@));
            assert(views(old_rest)[best as int] == m@);
            views(old_rest).to_multiset_ensures();
            views(old_out).to_multiset_ensures();
            assert(views(out@).to_multiset() == views(old_out).to_multiset().insert(m@));
            assert(views(old_rest).remove(best as int).to_multiset() == views(
                old_rest,
            ).to_multiset().remove(m@));
            assert(views(old_rest).to_multiset().count(m@) > 0) by {
                assert(views(old_rest).contains(m@));
            }
            assert(views(out@).to_multiset().add(views(rest@).to_multiset())
                =~= input.to_multiset());
            assert forall|i: int, k: int| 0 <= i < k < views(out@).len() implies lex_le(
                #[trigger] views(out@)[i],
                #[trigger] views(out@)[k],
            ) by {
                if k == out@.len() - 1 {
                    assert(lex_le(old_out[i]@, old_rest[best as int]@));
                } else {
                    assert(lex_le(views(old_out)[i], views(old_out)[k]));
                }
            }
            assert forall|i: int, k: int| 0 <= i < out@.len() && 0 <= k < rest@.len() implies lex_le(
                #[trigger] out@[i]@,
                #[trigger] rest@[k]@,
            ) by {
                let kk = if k < best {
                    k
                } else {
                    k + 1
                };
                assert(rest@[k] == old_rest[kk]);
                if i == out@.len() - 1 {
                    assert(lex_le(old_rest[best as int]@, old_rest[kk]@));
                } else {
                    assert(lex_le(old_out[i]@, old_rest[kk]@));
                }
            }
        }
    }
    proof {
        assert(views(rest@).to_multiset() =~= Multiset::empty());
        assert(views(out@).to_multiset().add(Multiset::empty()) =~= views(out@).to_multiset());
    }
    out
}

/// The listed names of the MP3 files among `file_names`, sorted.
pub fn audio_names(file_names: Vec<String>) -> (out: Vec<String>)
    ensures
        lex_sorted(views(out@)),
        views(out@).to_multiset() == mp3_stems(views(file_names@)).to_multiset(),
{
    let mut stems: Vec<String> = Vec::new();
    let n = file_names.len();
    let mut i: usize = 0;
    while i < n
        invariant
            i <= n == file_names@.len(),
            views(stems@) == mp3_stems(views(file_names@.take(i as int))),
        decreases n - i,
    {
        assert(views(file_names@.take(i + 1)).drop_last() == views(file_names@.take(i as int)));
        assert(views(file_names@.take(i + 1)).last() == file_names@[i as int]@);
        let ghost before = stems@;
        match mp3_stem(file_names[i].as_str()) {
            Some(s) => {
                stems.push(s);
                assert(views(stems@) == views(before).push(stems@.last()@));
            },
            None => {},
        }
        i = i + 1;
    }
    assert(file_names@.take(n as int) == file_names@);
    sort_names(stems)
}

} // verus!
