//! Properties that tie the formats, the saver's file names, encoding and
//! recovery together.
use vstd::prelude::*;
use crate::encode::spec_format_for_path;
use crate::format::{
    RecordingFormat,
    file_name_extension,
    is_plain_file_name,
    last_dot,
    law_extension_round_trip,
    law_path_format_is_file_names,
    spec_from_extension,
    spec_from_path,
};
use crate::recovery::{
    RecoveryPlan,
    bytes_le,
    is_merge_order,
    is_recovery_plan,
    lemma_bytes_le_antisymmetric,
    name_key,
    spec_is_checkpoint_file,
};
use crate::saver::{spec_checkpoint_file_name, spec_final_audio_file_name};
use vstd::utf8::{is_ascii_chars, is_ascii_chars_encode_utf8};
use crate::text::{decimal, digit_char, zero_padded};

verus! {

/// No character of `s` separates or prefixes path components.
pub open spec fn no_separators(s: Seq<char>) -> bool {
    forall|i: int| 0 <= i < s.len() ==> s[i] != '/' && s[i] != '\\' && s[i] != ':'
}

/// No character of `s` is a dot.
pub open spec fn no_dots(s: Seq<char>) -> bool {
    forall|i: int| 0 <= i < s.len() ==> s[i] != '.'
}

/// Every character of `s` is a decimal digit.
pub open spec fn all_digits(s: Seq<char>) -> bool {
    forall|i: int| 0 <= i < s.len() ==> '0' <= #[trigger] s[i] <= '9'
}

proof fn lemma_last_dot_before(s: Seq<char>, e: Seq<char>)
    requires
        s.len() > 0,
        s.last() == '.',
        no_dots(e),
    ensures
        last_dot(s + e) == s.len() - 1,
    decreases e.len(),
{
    if e.len() == 0 {
        assert(s + e =~= s);
    } else {
        assert((s + e).drop_last() =~= s + e.drop_last());
        assert((s + e).last() == e.last());
        lemma_last_dot_before(s, e.drop_last());
    }
}

proof fn lemma_decimal_digits(n: nat)
    ensures
        all_digits(decimal(n)),
    decreases n,
{
    if n >= 10 {
        lemma_decimal_digits(n / 10);
        assert(all_digits(decimal(n))) by {
            let d = decimal(n);
            assert forall|i: int| 0 <= i < d.len() implies '0' <= #[trigger] d[i] <= '9' by {
                if i < d.len() - 1 {
                    assert(d[i] == decimal(n / 10)[i]);
                }
            }
        }
    }
}

proof fn lemma_zero_padded_digits(n: nat, width: nat)
    ensures
        all_digits(zero_padded(n, width)),
{
    lemma_decimal_digits(n);
    let d = decimal(n);
    let z = zero_padded(n, width);
    if d.len() < width {
        let pad = Seq::new((width - d.len()) as nat, |i: int| '0');
        assert forall|i: int| 0 <= i < z.len() implies '0' <= #[trigger] z[i] <= '9' by {
            if i >= pad.len() {
                assert(z[i] == d[i - pad.len()]);
            }
        }
    }
}

/// A file named `base.ext` (with no separators, and no dot in `ext`) has the
/// format its extension names.
pub proof fn law_named_file_format(base: Seq<char>, ext: Seq<char>)
    requires
        base.len() > 0,
        ext.len() > 0,
        no_separators(base),
        no_separators(ext),
        no_dots(ext),
    ensures
        is_plain_file_name(base + "."@ + ext),
        spec_from_path(base + "."@ + ext) == spec_from_extension(ext),
{
    reveal_strlit(".");
    reveal_strlit("..");
    let s = base + "."@;
    let name = s + ext;
    assert(name =~= base + "."@ + ext);
    lemma_last_dot_before(s, ext);
    assert(name.len() >= 3);
    assert forall|i: int| 0 <= i < name.len() implies name[i] != '/' && name[i] != '\\'
        && name[i] != ':' by {
        if i < base.len() {
            assert(name[i] == base[i]);
        } else if i > base.len() {
            assert(name[i] == ext[i - base.len() - 1]);
        }
    }
    assert(name != "."@);
    assert(name != ".."@);
    assert(is_plain_file_name(name));
    assert(name.skip(s.len() as int) =~= ext);
    assert(file_name_extension(name) == Some(ext));
}

/// Every format's extension is a dot-free name part.
proof fn lemma_extension_is_name_part(f: RecordingFormat)
    ensures
        f.spec_extension().len() > 0,
        no_separators(f.spec_extension()),
        no_dots(f.spec_extension()),
{
    reveal_strlit("mp3");
    reveal_strlit("wav");
    reveal_strlit("m4a");
    reveal_strlit("flac");
    reveal_strlit("mp4");
}

/// Naming the output file chooses the format: a file `base.<ext>` is encoded
/// in the format whose extension is `<ext>`.
pub proof fn law_output_name_selects_format(base: Seq<char>, f: RecordingFormat)
    requires
        base.len() > 0,
        no_separators(base),
    ensures
        spec_format_for_path(Some(base + "."@ + f.spec_extension())) == f,
{
    lemma_extension_is_name_part(f);
    law_named_file_format(base, f.spec_extension());
    law_extension_round_trip(f);
}

/// The finished recording's file name, `audio.<ext>`, names its format.
pub proof fn law_final_file_names_its_format(f: RecordingFormat)
    ensures
        spec_from_path(spec_final_audio_file_name(f)) == Some(f),
{
    reveal_strlit("audio.");
    reveal_strlit("audio");
    reveal_strlit(".");
    assert("audio."@ =~= "audio"@ + "."@);
    lemma_extension_is_name_part(f);
    law_named_file_format("audio"@, f.spec_extension());
    law_extension_round_trip(f);
}

/// Naming the output file chooses the format wherever the file lies: a file
/// `base.<ext>` in a directory (one with no `\\` or `:`, the path not
/// beginning with `//`) is encoded in the format whose extension is `<ext>`,
/// and the finished recording `audio.<ext>` in a meeting folder names its
/// format.
pub proof fn law_output_path_selects_format(dir: Seq<char>, base: Seq<char>, f: RecordingFormat)
    requires
        base.len() > 0,
        no_separators(base),
        forall|i: int| 0 <= i < dir.len() ==> dir[i] != '\\' && dir[i] != ':',
        !(dir.len() >= 1 && dir[0] == '/' && (dir.len() == 1 || dir[1] == '/')),
    ensures
        spec_format_for_path(Some(dir + "/"@ + (base + "."@ + f.spec_extension()))) == f,
        spec_from_path(dir + "/"@ + spec_final_audio_file_name(f)) == Some(f),
{
    lemma_extension_is_name_part(f);
    law_named_file_format(base, f.spec_extension());
    law_extension_round_trip(f);
    law_path_format_is_file_names(dir, base + "."@ + f.spec_extension());
    reveal_strlit("audio.");
    reveal_strlit("audio");
    reveal_strlit(".");
    assert("audio."@ =~= "audio"@ + "."@);
    assert(forall|i: int| 0 <= i < 5 ==> #[trigger] "audio"@[i] != '/' && "audio"@[i] != '\\'
        && "audio"@[i] != ':');
    law_named_file_format("audio"@, f.spec_extension());
    law_final_file_names_its_format(f);
    law_path_format_is_file_names(dir, spec_final_audio_file_name(f));
}

/// Every checkpoint file is detected as a WAV checkpoint, so recovery finds
/// what the saver wrote.
pub proof fn law_checkpoint_files_are_wav(index: nat)
    ensures
        spec_from_path(spec_checkpoint_file_name(index)) == Some(RecordingFormat::Wav),
{
    reveal_strlit("audio_chunk_");
    reveal_strlit("wav");
    let z = zero_padded(index, 3);
    lemma_zero_padded_digits(index, 3);
    let base = "audio_chunk_"@ + z;
    assert forall|i: int| 0 <= i < base.len() implies base[i] != '/' && base[i] != '\\'
        && base[i] != ':' by {
        if i >= 12 {
            assert(base[i] == z[i - 12]);
            assert('0' <= z[i - 12] <= '9');
        }
    }
    lemma_extension_is_name_part(RecordingFormat::Wav);
    law_named_file_format(base, "wav"@);
    law_extension_round_trip(RecordingFormat::Wav);
}


/// Below 1000, `{:03}` renders exactly the hundreds, tens and units digits.
proof fn lemma_three_digits(n: nat)
    requires
        n < 1000,
    ensures
        zero_padded(n, 3) == seq![digit_char(n / 100), digit_char((n / 10) % 10), digit_char(n % 10)],
{
    reveal_with_fuel(decimal, 3);
    let z = zero_padded(n, 3);
    if n < 10 {
        assert(z =~= seq![digit_char(n / 100), digit_char((n / 10) % 10), digit_char(n % 10)]);
    } else if n < 100 {
        assert(decimal(n) =~= seq![digit_char(n / 10), digit_char(n % 10)]);
        assert(z =~= seq![digit_char(n / 100), digit_char((n / 10) % 10), digit_char(n % 10)]);
    } else {
        assert(decimal(n / 10) =~= seq![digit_char(n / 100), digit_char((n / 10) % 10)]);
        assert(decimal(n) =~= seq![
            digit_char(n / 100),
            digit_char((n / 10) % 10),
            digit_char(n % 10),
        ]);
    }
}

proof fn lemma_bytes_lt_at(a: Seq<u8>, b: Seq<u8>, k: int)
    requires
        a.len() == b.len(),
        0 <= k < a.len(),
        forall|m: int| 0 <= m < k ==> a[m] == b[m],
        a[k] < b[k],
    ensures
        bytes_le(a, b),
        a != b,
    decreases k,
{
    if k > 0 {
        lemma_bytes_lt_at(a.drop_first(), b.drop_first(), k - 1);
        if a == b {
            assert(a[k] == b[k]);
        }
    }
}

proof fn lemma_digit_byte(d: nat)
    requires
        d < 10,
    ensures
        digit_char(d) as u8 == 48 + d,
        '0' <= digit_char(d) <= '9',
{
}

/// Checkpoints numbered below 1000 have names in write order: the name of an
/// earlier checkpoint sorts strictly before a later one's, byte by byte.
pub proof fn law_checkpoint_names_sort_in_write_order(i: nat, j: nat)
    requires
        i < j < 1000,
    ensures
        bytes_le(name_key(spec_checkpoint_file_name(i)), name_key(spec_checkpoint_file_name(j))),
        name_key(spec_checkpoint_file_name(i)) != name_key(spec_checkpoint_file_name(j)),
{
    reveal_strlit("audio_chunk_");
    reveal_strlit(".");
    reveal_strlit("wav");
    lemma_three_digits(i);
    lemma_three_digits(j);
    lemma_digit_byte(i / 100);
    lemma_digit_byte((i / 10) % 10);
    lemma_digit_byte(i % 10);
    lemma_digit_byte(j / 100);
    lemma_digit_byte((j / 10) % 10);
    lemma_digit_byte(j % 10);
    let a = spec_checkpoint_file_name(i);
    let b = spec_checkpoint_file_name(j);
    assert(a.len() == 19 && b.len() == 19);
    assert(is_ascii_chars(a));
    assert(is_ascii_chars(b));
    is_ascii_chars_encode_utf8(a);
    is_ascii_chars_encode_utf8(b);
    let ka = name_key(a);
    let kb = name_key(b);
    assert forall|m: int| 0 <= m < 12 implies ka[m] == kb[m] by {
        assert(a[m] == b[m]);
    }
    if i / 100 < j / 100 {
        assert(ka[12] < kb[12]);
        lemma_bytes_lt_at(ka, kb, 12);
    } else if (i / 10) % 10 < (j / 10) % 10 {
        assert(a[12] == b[12]);
        assert(ka[13] < kb[13]);
        lemma_bytes_lt_at(ka, kb, 13);
    } else {
        assert(i / 100 == j / 100);
        assert((i / 10) % 10 == (j / 10) % 10);
        assert(i % 10 < j % 10);
        assert(a[12] == b[12]);
        assert(a[13] == b[13]);
        assert(ka[14] < kb[14]);
        lemma_bytes_lt_at(ka, kb, 14);
    }
}


proof fn lemma_increasing_at_least_index(v: spec_fn(int) -> int, len: int, p: int)
    requires
        forall|a: int, b: int| #![trigger v(a), v(b)] 0 <= a < b < len ==> v(a) < v(b),
        forall|q: int| 0 <= q < len ==> 0 <= #[trigger] v(q),
        0 <= p < len,
    ensures
        v(p) >= p,
    decreases p,
{
    if p > 0 {
        lemma_increasing_at_least_index(v, len, p - 1);
        assert(v(p - 1) < v(p));
    }
}

/// Some position below `len` holds value `x`.
spec fn value_taken(v: spec_fn(int) -> int, len: int, x: int) -> bool {
    exists|q: int| 0 <= q < len && #[trigger] v(q) == x
}

proof fn lemma_increasing_cover_is_identity(v: spec_fn(int) -> int, len: int, n: int, k: int)
    requires
        forall|a: int, b: int| #![trigger v(a), v(b)] 0 <= a < b < len ==> v(a) < v(b),
        forall|q: int| 0 <= q < len ==> 0 <= #[trigger] v(q) < n,
        forall|x: int| 0 <= x < n ==> #[trigger] value_taken(v, len, x),
        0 <= k < len,
    ensures
        forall|j: int| 0 <= j <= k ==> #[trigger] v(j) == j,
    decreases k,
{
    if k > 0 {
        lemma_increasing_cover_is_identity(v, len, n, k - 1);
    }
    lemma_increasing_at_least_index(v, len, k);
    assert(k < n);
    assert(value_taken(v, len, k));
    let q = choose|q: int| 0 <= q < len && #[trigger] v(q) == k;
    if q < k {
        assert(v(q) == q);
    } else if q > k {
        assert(v(k) < v(q));
    }
}

/// Checkpoint names below 1000 are distinct.
proof fn lemma_checkpoint_names_distinct(i: nat, j: nat)
    requires
        i < 1000,
        j < 1000,
        i != j,
    ensures
        spec_checkpoint_file_name(i) != spec_checkpoint_file_name(j),
{
    if i < j {
        law_checkpoint_names_sort_in_write_order(i, j);
    } else {
        law_checkpoint_names_sort_in_write_order(j, i);
    }
}

/// Each of the checkpoint files `0 .. n` is among `names`.
#[verifier::opaque]
pub open spec fn holds_checkpoints(names: Seq<Seq<char>>, n: nat) -> bool {
    forall|k: int|
        #![trigger spec_checkpoint_file_name(k as nat)]
        0 <= k < n ==> exists|i: int|
            #![trigger names[i]]
            0 <= i < names.len() && names[i] == spec_checkpoint_file_name(k as nat)
}

/// Every checkpoint file among `names` is one of the checkpoint files `0 .. n`.
#[verifier::opaque]
pub open spec fn only_checkpoints(names: Seq<Seq<char>>, n: nat) -> bool {
    forall|i: int|
        0 <= i < names.len() && spec_is_checkpoint_file(#[trigger] names[i]) ==> exists|k: int|
            0 <= k < n && names[i] == #[trigger] spec_checkpoint_file_name(k as nat)
}

/// The checkpoint number of the file at position `p` of a merge order.
spec fn number_at(names: Seq<Seq<char>>, order: Seq<usize>, n: nat, p: int) -> int {
    choose|k: int| 0 <= k < n && names[order[p] as int] == #[trigger] spec_checkpoint_file_name(
        k as nat,
    )
}

proof fn lemma_number_at(names: Seq<Seq<char>>, order: Seq<usize>, n: nat, p: int)
    requires
        only_checkpoints(names, n),
        is_merge_order(names, order),
        0 <= p < order.len(),
    ensures
        0 <= number_at(names, order, n, p) < n,
        names[order[p] as int] == spec_checkpoint_file_name(number_at(names, order, n, p) as nat),
{
    reveal(only_checkpoints);
    assert(order[p] < names.len());
    assert(spec_is_checkpoint_file(names[order[p] as int]));
}

proof fn lemma_number_increasing(names: Seq<Seq<char>>, order: Seq<usize>, n: nat, a: int, b: int)
    requires
        n <= 1000,
        names.no_duplicates(),
        only_checkpoints(names, n),
        is_merge_order(names, order),
        0 <= a < b < order.len(),
    ensures
        number_at(names, order, n, a) < number_at(names, order, n, b),
{
    lemma_number_at(names, order, n, a);
    lemma_number_at(names, order, n, b);
    let va = number_at(names, order, n, a);
    let vb = number_at(names, order, n, b);
    assert(order[a] != order[b]);
    assert(names[order[a] as int] != names[order[b] as int]);
    let ka = name_key(names[order[a] as int]);
    let kb = name_key(names[order[b] as int]);
    assert(bytes_le(ka, kb));
    if va > vb {
        law_checkpoint_names_sort_in_write_order(vb as nat, va as nat);
        lemma_bytes_le_antisymmetric(ka, kb);
    }
}

proof fn lemma_merge_order_has(names: Seq<Seq<char>>, order: Seq<usize>, i: int) -> (q: int)
    requires
        is_merge_order(names, order),
        0 <= i < names.len() <= usize::MAX,
        spec_is_checkpoint_file(names[i]),
    ensures
        0 <= q < order.len(),
        order[q] == i,
{
    assert(order.contains(i as usize));
    choose|q: int| 0 <= q < order.len() && order[q] == i as usize
}

proof fn lemma_number_taken(names: Seq<Seq<char>>, order: Seq<usize>, n: nat, x: int) -> (q: int)
    requires
        n <= 1000,
        0 <= x < n,
        names.len() <= usize::MAX,
        holds_checkpoints(names, n),
        only_checkpoints(names, n),
        is_merge_order(names, order),
    ensures
        0 <= q < order.len(),
        number_at(names, order, n, q) == x,
{
    reveal(holds_checkpoints);
    assert(spec_checkpoint_file_name(x as nat) == spec_checkpoint_file_name(x as nat));
    let i = choose|i: int|
        0 <= i < names.len() && #[trigger] names[i] == spec_checkpoint_file_name(x as nat);
    law_checkpoint_files_are_wav(x as nat);
    let q = lemma_merge_order_has(names, order, i);
    lemma_number_at(names, order, n, q);
    let vq = number_at(names, order, n, q);
    if vq != x {
        lemma_checkpoint_names_distinct(vq as nat, x as nat);
    }
    q
}

/// Recovery merges checkpoints in the order they were written: when the
/// scanned names hold the checkpoint files `0 .. n` of a session (`n` at most
/// 1000), each once, in any order and among other files that are not
/// checkpoints, the merge order lists exactly those files, checkpoint `k` at
/// position `k`.
pub proof fn law_recovery_merges_in_write_order(names: Seq<Seq<char>>, order: Seq<usize>, n: nat)
    requires
        n <= 1000,
        names.len() <= usize::MAX,
        names.no_duplicates(),
        holds_checkpoints(names, n),
        only_checkpoints(names, n),
        is_merge_order(names, order),
    ensures
        order.len() == n,
        forall|k: int| 0 <= k < n ==> names[order[k] as int] == spec_checkpoint_file_name(k as nat),
{
    let len = order.len() as int;
    let v = |p: int| number_at(names, order, n, p);
    assert forall|p: int| 0 <= p < len implies 0 <= #[trigger] v(p) < n by {
        lemma_number_at(names, order, n, p);
    }
    assert forall|a: int, b: int| #![trigger v(a), v(b)] 0 <= a < b < len implies v(a) < v(b) by {
        lemma_number_increasing(names, order, n, a, b);
    }
    assert forall|x: int| 0 <= x < n implies #[trigger] value_taken(v, len, x) by {
        let q = lemma_number_taken(names, order, n, x);
        assert(v(q) == x);
    }
    if len > 0 {
        lemma_increasing_cover_is_identity(v, len, n as int, len - 1);
    }
    if n > 0 {
        assert(value_taken(v, len, n - 1));
        let q = choose|q: int| 0 <= q < len && #[trigger] v(q) == n - 1;
        assert(v(q) == q);
    }
    if len > n {
        lemma_increasing_at_least_index(v, len, len - 1);
    }
    assert forall|k: int| 0 <= k < n implies names[order[k] as int] == spec_checkpoint_file_name(
        k as nat,
    ) by {
        lemma_number_at(names, order, n, k);
        assert(v(k) == k);
    }
}


/// Entry `x` comes strictly before entry `y` in merge order: by name, and by
/// scan position among equal names.
spec fn merges_before(names: Seq<Seq<char>>, x: usize, y: usize) -> bool {
    &&& x != y
    &&& bytes_le(name_key(names[x as int]), name_key(names[y as int]))
    &&& name_key(names[x as int]) == name_key(names[y as int]) ==> x < y
}

proof fn lemma_merges_before_asymmetric(names: Seq<Seq<char>>, x: usize, y: usize)
    ensures
        !(merges_before(names, x, y) && merges_before(names, y, x)),
{
    if merges_before(names, x, y) && merges_before(names, y, x) {
        lemma_bytes_le_antisymmetric(name_key(names[x as int]), name_key(names[y as int]));
    }
}

proof fn lemma_merge_order_before(names: Seq<Seq<char>>, order: Seq<usize>, a: int, b: int)
    requires
        is_merge_order(names, order),
        0 <= a < b < order.len(),
    ensures
        merges_before(names, order[a], order[b]),
{
}

proof fn lemma_merge_order_position(names: Seq<Seq<char>>, from: Seq<usize>, to: Seq<usize>, k: int) -> (p: int)
    requires
        is_merge_order(names, from),
        is_merge_order(names, to),
        names.len() <= usize::MAX,
        0 <= k < from.len(),
    ensures
        0 <= p < to.len(),
        to[p] == from[k],
{
    let x = from[k];
    assert(x < names.len() && spec_is_checkpoint_file(names[x as int]));
    assert(to.contains((x as int) as usize));
    choose|p: int| 0 <= p < to.len() && to[p] == x
}

proof fn lemma_merge_orders_agree(names: Seq<Seq<char>>, o1: Seq<usize>, o2: Seq<usize>, k: int)
    requires
        is_merge_order(names, o1),
        is_merge_order(names, o2),
        names.len() <= usize::MAX,
        0 <= k < o1.len(),
        k < o2.len(),
    ensures
        forall|j: int| 0 <= j <= k ==> #[trigger] o1[j] == o2[j],
    decreases k,
{
    if k > 0 {
        lemma_merge_orders_agree(names, o1, o2, k - 1);
    }
    let p = lemma_merge_order_position(names, o1, o2, k);
    let q = lemma_merge_order_position(names, o2, o1, k);
    if p < k {
        assert(o1[p] == o2[p]);
        lemma_merge_order_before(names, o1, p, k);
    } else if q < k {
        assert(o1[q] == o2[q]);
        lemma_merge_order_before(names, o2, q, k);
    } else if p > k && q > k {
        lemma_merge_order_before(names, o2, k, p);
        lemma_merge_order_before(names, o1, k, q);
        lemma_merges_before_asymmetric(names, o1[k], o2[k]);
    } else if p > k {
        lemma_merge_order_before(names, o2, k, p);
    }
}

proof fn lemma_merge_order_not_longer(names: Seq<Seq<char>>, o1: Seq<usize>, o2: Seq<usize>)
    requires
        is_merge_order(names, o1),
        is_merge_order(names, o2),
        names.len() <= usize::MAX,
    ensures
        o1.len() <= o2.len(),
{
    if o1.len() > o2.len() {
        let k = o2.len() as int;
        let p = lemma_merge_order_position(names, o1, o2, k);
        lemma_merge_orders_agree(names, o1, o2, p);
        assert(o1[p] == o2[p]);
        lemma_merge_order_before(names, o1, p, k);
    }
}

/// The merge order of a set of names is unique: any two merge orders of the
/// same names are equal.
pub proof fn law_merge_order_is_unique(names: Seq<Seq<char>>, o1: Seq<usize>, o2: Seq<usize>)
    requires
        is_merge_order(names, o1),
        is_merge_order(names, o2),
        names.len() <= usize::MAX,
    ensures
        o1 == o2,
{
    lemma_merge_order_not_longer(names, o1, o2);
    lemma_merge_order_not_longer(names, o2, o1);
    if o1.len() > 0 {
        lemma_merge_orders_agree(names, o1, o2, o1.len() - 1);
    }
    assert(o1 =~= o2);
}

/// Recovery is determined by the scanned names and the target format alone
/// (no sample rate or other input takes part): any two recovery plans for
/// the same names and target agree in every field.
pub proof fn law_recovery_plan_is_determined(
    names: Seq<Seq<char>>,
    target: RecordingFormat,
    r1: Option<RecoveryPlan>,
    r2: Option<RecoveryPlan>,
)
    requires
        is_recovery_plan(names, target, r1),
        is_recovery_plan(names, target, r2),
        names.len() <= usize::MAX,
    ensures
        r1 is None <==> r2 is None,
        r1 matches Some(p1) ==> (r2 matches Some(p2) && {
            &&& p1.checkpoint_files@ == p2.checkpoint_files@
            &&& p1.chunk_count == p2.chunk_count
            &&& p1.checkpoint_format == p2.checkpoint_format
            &&& p1.stream_copy == p2.stream_copy
            &&& p1.output_file_name@ == p2.output_file_name@
        }),
{
    if let Some(p1) = r1 {
        if let Some(p2) = r2 {
            law_merge_order_is_unique(names, p1.checkpoint_files@, p2.checkpoint_files@);
        }
    }
}

} // verus!
