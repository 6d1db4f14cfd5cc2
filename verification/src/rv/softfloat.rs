//! The single-precision runtime of the RV32IM backend: routines written once into the text of
//! an object and reached by `jal ra, label`.
//!
//! A routine takes its operands in `a0` and `a1` and returns in `a0`. Each is a leaf: it calls
//! nothing, leaves `ra` and `sp` alone and keeps all its state in registers; it may change any
//! other register.
//!
//! Shifts by an amount known only at run time go one bit at a time, because a RV32 shift looks
//! at the low 5 bits of its amount only. A 64-bit value is a pair of registers.
//!
//! The labels of a routine share its prefix (`add_`, `mul_`, ...), and the entry labels start
//! with `__sf_`, so that they meet no other label of the object.

use vstd::prelude::*;
use vstd::string::*;

use crate::rv::enc::{
    addi_asm, assemble, defines, group_text, in_reach, jumps, law_closed_text_moves,
    law_short_text_is_in_reach, lemma_defines_empty, lemma_defines_push, lemma_few_words,
    lemma_joined_names, lemma_jumps_empty, lemma_jumps_push, lemma_line_counted, linkable, mv_asm,
    ret_asm, target_of, text_len, AluOp, Asm, BCond, Enc, ImmOp, MulOp, ShiftOp, A0, A1, A2, A3, A4,
    A5, A6, A7, S2, S3, S4, S5, S6, S7, S8, S9, T0, T1, T2, T3, T4, T5, T6, ZERO,
};

verus! {

// ---- labels --------------------------------------------------------------------------------

/// Whether a name starts with three given letters and an underscore.
pub open spec fn prefixed(n: Seq<char>, a: char, b: char, c: char) -> bool {
    &&& n.len() >= 4
    &&& n[0] == a
    &&& n[1] == b
    &&& n[2] == c
    &&& n[3] == '_'
}

/// Whether a name is one that the runtime may define.
pub open spec fn runtime_name(n: Seq<char>) -> bool {
    ||| prefixed(n, 'a', 'd', 'd')
    ||| prefixed(n, 'm', 'u', 'l')
    ||| prefixed(n, 'd', 'i', 'v')
    ||| prefixed(n, 'c', 'm', 'p')
    ||| prefixed(n, 'i', '2', 'f')
    ||| prefixed(n, 'u', '2', 'f')
    ||| prefixed(n, 'f', '2', 'i')
    ||| prefixed(n, 'f', '2', 'u')
    ||| entry_name(n)
}

/// Whether a name is the entry of a routine.
pub open spec fn entry_name(n: Seq<char>) -> bool {
    ||| n == "__sf_f32_add"@
    ||| n == "__sf_f32_mul"@
    ||| n == "__sf_f32_div"@
    ||| n == "__sf_f32_cmp"@
    ||| n == "__sf_i32_to_f32"@
    ||| n == "__sf_u32_to_f32"@
    ||| n == "__sf_f32_to_i32"@
    ||| n == "__sf_f32_to_u32"@
}

/// A number that tells the labels of one routine apart.
spec fn label_key(n: Seq<char>) -> int {
    n.len() + 64 * (n[4] as int + 256 * (n[5] as int + 256 * (n[6] as int + 256 * (n[n.len() - 1] as int
        + 256 * (n[n.len() - 2] as int)))))
}

proof fn lemma_add_labels()
    ensures
        label_key("__sf_f32_add"@) == 27595380463564,
        !prefixed("__sf_f32_add"@, 'a', 'd', 'd'),
        label_key("add_da"@ + "_dz"@) == 27619187251465,
        prefixed("add_da"@ + "_dz"@, 'a', 'd', 'd'),
        label_key("add_da"@ + "_dj"@) == 27602007382281,
        prefixed("add_da"@ + "_dj"@, 'a', 'd', 'd'),
        label_key("add_db"@ + "_dz"@) == 27619187267849,
        prefixed("add_db"@ + "_dz"@, 'a', 'd', 'd'),
        label_key("add_db"@ + "_dj"@) == 27602007398665,
        prefixed("add_db"@ + "_dj"@, 'a', 'd', 'd'),
        label_key("add_skip_ii"@) == 28975365283019,
        prefixed("add_skip_ii"@, 'a', 'd', 'd'),
        label_key("add_skip_zz"@) == 33666543312075,
        prefixed("add_skip_zz"@, 'a', 'd', 'd'),
        label_key("add_pick_b"@) == 26219044822026,
        prefixed("add_pick_b"@, 'a', 'd', 'd'),
        label_key("add_pick_a"@) == 26217971080202,
        prefixed("add_pick_a"@, 'a', 'd', 'd'),
        label_key("add_picked"@) == 27870459747338,
        prefixed("add_picked"@, 'a', 'd', 'd'),
        label_key("add_k_diff"@) == 28147489168074,
        prefixed("add_k_diff"@, 'a', 'd', 'd'),
        label_key("add_k_done"@) == 30345438681802,
        prefixed("add_k_done"@, 'a', 'd', 'd'),
        label_key("add_sw_far"@) == 26785963957450,
        prefixed("add_sw_far"@, 'a', 'd', 'd'),
        label_key("add_sw_loop"@) == 30632107171019,
        prefixed("add_sw_loop"@, 'a', 'd', 'd'),
        label_key("add_sw_loop_done"@) == 30345418104016,
        prefixed("add_sw_loop_done"@, 'a', 'd', 'd'),
        label_key("add_sw_sat"@) == 26788111441098,
        prefixed("add_sw_sat"@, 'a', 'd', 'd'),
        label_key("add_sw_done"@) == 30345418104011,
        prefixed("add_sw_done"@, 'a', 'd', 'd'),
        label_key("add_bw_loop"@) == 30632107169931,
        prefixed("add_bw_loop"@, 'a', 'd', 'd'),
        label_key("add_bw_done"@) == 30345418102923,
        prefixed("add_bw_done"@, 'a', 'd', 'd'),
        label_key("add_sum"@ + "_npl"@) == 30902748798155,
        prefixed("add_sum"@ + "_npl"@, 'a', 'd', 'd'),
        label_key("add_sum"@ + "_nple"@) == 29795720977612,
        prefixed("add_sum"@ + "_nple"@, 'a', 'd', 'd'),
        label_key("add_sum"@ + "_npr"@) == 30909191249099,
        prefixed("add_sum"@ + "_npr"@, 'a', 'd', 'd'),
        label_key("add_sum"@ + "_nprs"@) == 31460020804812,
        prefixed("add_sum"@ + "_nprs"@, 'a', 'd', 'd'),
        label_key("add_sum"@ + "_npre"@) == 31444988419276,
        prefixed("add_sum"@ + "_npre"@, 'a', 'd', 'd'),
        label_key("add_sum"@ + "_npu"@) == 30912412474571,
        prefixed("add_sum"@ + "_npu"@, 'a', 'd', 'd'),
        label_key("add_sum"@ + "_npo"@) == 30905970023627,
        prefixed("add_sum"@ + "_npo"@, 'a', 'd', 'd'),
        label_key("add_sum"@ + "_npd"@) == 30894158863563,
        prefixed("add_sum"@ + "_npd"@, 'a', 'd', 'd'),
        label_key("add_diffsign"@) == 28430965561612,
        prefixed("add_diffsign"@, 'a', 'd', 'd'),
        label_key("add_diff_nz"@) == 30367995812107,
        prefixed("add_diff_nz"@, 'a', 'd', 'd'),
        label_key("add_diff"@ + "_npl"@) == 30902719240460,
        prefixed("add_diff"@ + "_npl"@, 'a', 'd', 'd'),
        label_key("add_diff"@ + "_nple"@) == 29795691419917,
        prefixed("add_diff"@ + "_nple"@, 'a', 'd', 'd'),
        label_key("add_diff"@ + "_npr"@) == 30909161691404,
        prefixed("add_diff"@ + "_npr"@, 'a', 'd', 'd'),
        label_key("add_diff"@ + "_nprs"@) == 31459991247117,
        prefixed("add_diff"@ + "_nprs"@, 'a', 'd', 'd'),
        label_key("add_diff"@ + "_npre"@) == 31444958861581,
        prefixed("add_diff"@ + "_npre"@, 'a', 'd', 'd'),
        label_key("add_diff"@ + "_npu"@) == 30912382916876,
        prefixed("add_diff"@ + "_npu"@, 'a', 'd', 'd'),
        label_key("add_diff"@ + "_npo"@) == 30905940465932,
        prefixed("add_diff"@ + "_npo"@, 'a', 'd', 'd'),
        label_key("add_diff"@ + "_npd"@) == 30894129305868,
        prefixed("add_diff"@ + "_npd"@, 'a', 'd', 'd'),
        label_key("add_ret_nan"@) == 26781756775563,
        prefixed("add_ret_nan"@, 'a', 'd', 'd'),
        label_key("add_ret_a"@) == 26218042317961,
        prefixed("add_ret_a"@, 'a', 'd', 'd'),
        label_key("add_ret_b"@) == 26219116059785,
        prefixed("add_ret_b"@, 'a', 'd', 'd'),
        label_key("add_ret_zero"@) == 31455754935436,
        prefixed("add_ret_zero"@, 'a', 'd', 'd'),
{
    reveal_strlit("__sf_f32_add");
    reveal_strlit("add_da");
    reveal_strlit("_dz");
    reveal_strlit("_dj");
    reveal_strlit("add_db");
    reveal_strlit("add_skip_ii");
    reveal_strlit("add_skip_zz");
    reveal_strlit("add_pick_b");
    reveal_strlit("add_pick_a");
    reveal_strlit("add_picked");
    reveal_strlit("add_k_diff");
    reveal_strlit("add_k_done");
    reveal_strlit("add_sw_far");
    reveal_strlit("add_sw_loop");
    reveal_strlit("add_sw_loop_done");
    reveal_strlit("add_sw_sat");
    reveal_strlit("add_sw_done");
    reveal_strlit("add_bw_loop");
    reveal_strlit("add_bw_done");
    reveal_strlit("add_sum");
    reveal_strlit("_npl");
    reveal_strlit("_nple");
    reveal_strlit("_npr");
    reveal_strlit("_nprs");
    reveal_strlit("_npre");
    reveal_strlit("_npu");
    reveal_strlit("_npo");
    reveal_strlit("_npd");
    reveal_strlit("add_diffsign");
    reveal_strlit("add_diff_nz");
    reveal_strlit("add_diff");
    reveal_strlit("add_ret_nan");
    reveal_strlit("add_ret_a");
    reveal_strlit("add_ret_b");
    reveal_strlit("add_ret_zero");
}

proof fn lemma_mul_labels()
    ensures
        label_key("__sf_f32_mul"@) == 32276894816204,
        !prefixed("__sf_f32_mul"@, 'm', 'u', 'l'),
        label_key("mul_da"@ + "_dz"@) == 27619187251465,
        prefixed("mul_da"@ + "_dz"@, 'm', 'u', 'l'),
        label_key("mul_da"@ + "_dj"@) == 27602007382281,
        prefixed("mul_da"@ + "_dj"@, 'm', 'u', 'l'),
        label_key("mul_db"@ + "_dz"@) == 27619187267849,
        prefixed("mul_db"@ + "_dz"@, 'm', 'u', 'l'),
        label_key("mul_db"@ + "_dj"@) == 27602007398665,
        prefixed("mul_db"@ + "_dj"@, 'm', 'u', 'l'),
        label_key("mul_np"@ + "_npl"@) == 30902689995658,
        prefixed("mul_np"@ + "_npl"@, 'm', 'u', 'l'),
        label_key("mul_np"@ + "_nple"@) == 29795662175115,
        prefixed("mul_np"@ + "_nple"@, 'm', 'u', 'l'),
        label_key("mul_np"@ + "_npr"@) == 30909132446602,
        prefixed("mul_np"@ + "_npr"@, 'm', 'u', 'l'),
        label_key("mul_np"@ + "_nprs"@) == 31459962002315,
        prefixed("mul_np"@ + "_nprs"@, 'm', 'u', 'l'),
        label_key("mul_np"@ + "_npre"@) == 31444929616779,
        prefixed("mul_np"@ + "_npre"@, 'm', 'u', 'l'),
        label_key("mul_np"@ + "_npu"@) == 30912353672074,
        prefixed("mul_np"@ + "_npu"@, 'm', 'u', 'l'),
        label_key("mul_np"@ + "_npo"@) == 30905911221130,
        prefixed("mul_np"@ + "_npo"@, 'm', 'u', 'l'),
        label_key("mul_np"@ + "_npd"@) == 30894100061066,
        prefixed("mul_np"@ + "_npd"@, 'm', 'u', 'l'),
        label_key("mul_done"@) == 30345480886536,
        prefixed("mul_done"@, 'm', 'u', 'l'),
        label_key("mul_ret_nan"@) == 26781756775563,
        prefixed("mul_ret_nan"@, 'm', 'u', 'l'),
        label_key("mul_ret_inf"@) == 30346579631243,
        prefixed("mul_ret_inf"@, 'm', 'u', 'l'),
        label_key("mul_ret_zero"@) == 31455754935436,
        prefixed("mul_ret_zero"@, 'm', 'u', 'l'),
{
    reveal_strlit("__sf_f32_mul");
    reveal_strlit("mul_da");
    reveal_strlit("_dz");
    reveal_strlit("_dj");
    reveal_strlit("mul_db");
    reveal_strlit("mul_np");
    reveal_strlit("_npl");
    reveal_strlit("_nple");
    reveal_strlit("_npr");
    reveal_strlit("_nprs");
    reveal_strlit("_npre");
    reveal_strlit("_npu");
    reveal_strlit("_npo");
    reveal_strlit("_npd");
    reveal_strlit("mul_done");
    reveal_strlit("mul_ret_nan");
    reveal_strlit("mul_ret_inf");
    reveal_strlit("mul_ret_zero");
}

proof fn lemma_div_labels()
    ensures
        label_key("__sf_f32_div"@) == 28989097351116,
        !prefixed("__sf_f32_div"@, 'd', 'i', 'v'),
        label_key("div_da"@ + "_dz"@) == 27619187251465,
        prefixed("div_da"@ + "_dz"@, 'd', 'i', 'v'),
        label_key("div_da"@ + "_dj"@) == 27602007382281,
        prefixed("div_da"@ + "_dj"@, 'd', 'i', 'v'),
        label_key("div_db"@ + "_dz"@) == 27619187267849,
        prefixed("div_db"@ + "_dz"@, 'd', 'i', 'v'),
        label_key("div_db"@ + "_dj"@) == 27602007398665,
        prefixed("div_db"@ + "_dj"@, 'd', 'i', 'v'),
        label_key("div_np"@ + "_npl"@) == 30902689995658,
        prefixed("div_np"@ + "_npl"@, 'd', 'i', 'v'),
        label_key("div_np"@ + "_nple"@) == 29795662175115,
        prefixed("div_np"@ + "_nple"@, 'd', 'i', 'v'),
        label_key("div_np"@ + "_npr"@) == 30909132446602,
        prefixed("div_np"@ + "_npr"@, 'd', 'i', 'v'),
        label_key("div_np"@ + "_nprs"@) == 31459962002315,
        prefixed("div_np"@ + "_nprs"@, 'd', 'i', 'v'),
        label_key("div_np"@ + "_npre"@) == 31444929616779,
        prefixed("div_np"@ + "_npre"@, 'd', 'i', 'v'),
        label_key("div_np"@ + "_npu"@) == 30912353672074,
        prefixed("div_np"@ + "_npu"@, 'd', 'i', 'v'),
        label_key("div_np"@ + "_npo"@) == 30905911221130,
        prefixed("div_np"@ + "_npo"@, 'd', 'i', 'v'),
        label_key("div_np"@ + "_npd"@) == 30894100061066,
        prefixed("div_np"@ + "_npd"@, 'd', 'i', 'v'),
        label_key("div_done"@) == 30345480886536,
        prefixed("div_done"@, 'd', 'i', 'v'),
        label_key("div_ret_nan"@) == 26781756775563,
        prefixed("div_ret_nan"@, 'd', 'i', 'v'),
        label_key("div_ret_zero"@) == 31455754935436,
        prefixed("div_ret_zero"@, 'd', 'i', 'v'),
        label_key("div_ret_inf"@) == 30346579631243,
        prefixed("div_ret_inf"@, 'd', 'i', 'v'),
{
    reveal_strlit("__sf_f32_div");
    reveal_strlit("div_da");
    reveal_strlit("_dz");
    reveal_strlit("_dj");
    reveal_strlit("div_db");
    reveal_strlit("div_np");
    reveal_strlit("_npl");
    reveal_strlit("_nple");
    reveal_strlit("_npr");
    reveal_strlit("_nprs");
    reveal_strlit("_npre");
    reveal_strlit("_npu");
    reveal_strlit("_npo");
    reveal_strlit("_npd");
    reveal_strlit("div_done");
    reveal_strlit("div_ret_nan");
    reveal_strlit("div_ret_zero");
    reveal_strlit("div_ret_inf");
}

proof fn lemma_cmp_labels()
    ensures
        label_key("__sf_f32_cmp"@) == 30082166527948,
        !prefixed("__sf_f32_cmp"@, 'c', 'm', 'p'),
        label_key("cmp_da"@ + "_dz"@) == 27619187251465,
        prefixed("cmp_da"@ + "_dz"@, 'c', 'm', 'p'),
        label_key("cmp_da"@ + "_dj"@) == 27602007382281,
        prefixed("cmp_da"@ + "_dj"@, 'c', 'm', 'p'),
        label_key("cmp_db"@ + "_dz"@) == 27619187267849,
        prefixed("cmp_db"@ + "_dz"@, 'c', 'm', 'p'),
        label_key("cmp_db"@ + "_dj"@) == 27602007398665,
        prefixed("cmp_db"@ + "_dj"@, 'c', 'm', 'p'),
        label_key("cmp_skip_zz"@) == 33666543312075,
        prefixed("cmp_skip_zz"@, 'c', 'm', 'p'),
        label_key("cmp_za_neg1"@) == 28365437820555,
        prefixed("cmp_za_neg1"@, 'c', 'm', 'p'),
        label_key("cmp_skip_za"@) == 33639699766475,
        prefixed("cmp_skip_za"@, 'c', 'm', 'p'),
        label_key("cmp_zb_pos1"@) == 31663972720267,
        prefixed("cmp_zb_pos1"@, 'c', 'm', 'p'),
        label_key("cmp_skip_zb"@) == 33640773508299,
        prefixed("cmp_skip_zb"@, 'c', 'm', 'p'),
        label_key("cmp_diffsign_pos"@) == 30635357526288,
        prefixed("cmp_diffsign_pos"@, 'c', 'm', 'p'),
        label_key("cmp_same_sign"@) == 28430994791629,
        prefixed("cmp_same_sign"@, 'c', 'm', 'p'),
        label_key("cmp_mag_lt_e"@) == 26222282693452,
        prefixed("cmp_mag_lt_e"@, 'c', 'm', 'p'),
        label_key("cmp_use_mant"@) == 30361549331788,
        prefixed("cmp_use_mant"@, 'c', 'm', 'p'),
        label_key("cmp_mag_lt_m"@) == 26230872628044,
        prefixed("cmp_mag_lt_m"@, 'c', 'm', 'p'),
        label_key("cmp_mag_eq"@) == 27884435037002,
        prefixed("cmp_mag_eq"@, 'c', 'm', 'p'),
        label_key("cmp_mag_done"@) == 30345451297612,
        prefixed("cmp_mag_done"@, 'c', 'm', 'p'),
        label_key("cmp_no_negate"@) == 31994685414285,
        prefixed("cmp_no_negate"@, 'c', 'm', 'p'),
        label_key("cmp_ret_m2"@) == 30015867149450,
        prefixed("cmp_ret_m2"@, 'c', 'm', 'p'),
        label_key("cmp_ret_0"@) == 26165428968585,
        prefixed("cmp_ret_0"@, 'c', 'm', 'p'),
{
    reveal_strlit("__sf_f32_cmp");
    reveal_strlit("cmp_da");
    reveal_strlit("_dz");
    reveal_strlit("_dj");
    reveal_strlit("cmp_db");
    reveal_strlit("cmp_skip_zz");
    reveal_strlit("cmp_za_neg1");
    reveal_strlit("cmp_skip_za");
    reveal_strlit("cmp_zb_pos1");
    reveal_strlit("cmp_skip_zb");
    reveal_strlit("cmp_diffsign_pos");
    reveal_strlit("cmp_same_sign");
    reveal_strlit("cmp_mag_lt_e");
    reveal_strlit("cmp_use_mant");
    reveal_strlit("cmp_mag_lt_m");
    reveal_strlit("cmp_mag_eq");
    reveal_strlit("cmp_mag_done");
    reveal_strlit("cmp_no_negate");
    reveal_strlit("cmp_ret_m2");
    reveal_strlit("cmp_ret_0");
}

proof fn lemma_i2f_labels()
    ensures
        label_key("__sf_i32_to_f32"@) == 14072675981263,
        !prefixed("__sf_i32_to_f32"@, 'i', '2', 'f'),
        label_key("i2f_nonzero"@) == 31455729933195,
        prefixed("i2f_nonzero"@, 'i', '2', 'f'),
        label_key("i2f_pos"@) == 30635412151303,
        prefixed("i2f_pos"@, 'i', '2', 'f'),
        label_key("i2f_mag_done"@) == 30345451297612,
        prefixed("i2f_mag_done"@, 'i', '2', 'f'),
        label_key("i2f_np"@ + "_npl"@) == 30902689995658,
        prefixed("i2f_np"@ + "_npl"@, 'i', '2', 'f'),
        label_key("i2f_np"@ + "_nple"@) == 29795662175115,
        prefixed("i2f_np"@ + "_nple"@, 'i', '2', 'f'),
        label_key("i2f_np"@ + "_npr"@) == 30909132446602,
        prefixed("i2f_np"@ + "_npr"@, 'i', '2', 'f'),
        label_key("i2f_np"@ + "_nprs"@) == 31459962002315,
        prefixed("i2f_np"@ + "_nprs"@, 'i', '2', 'f'),
        label_key("i2f_np"@ + "_npre"@) == 31444929616779,
        prefixed("i2f_np"@ + "_npre"@, 'i', '2', 'f'),
        label_key("i2f_np"@ + "_npu"@) == 30912353672074,
        prefixed("i2f_np"@ + "_npu"@, 'i', '2', 'f'),
        label_key("i2f_np"@ + "_npo"@) == 30905911221130,
        prefixed("i2f_np"@ + "_npo"@, 'i', '2', 'f'),
        label_key("i2f_np"@ + "_npd"@) == 30894100061066,
        prefixed("i2f_np"@ + "_npd"@, 'i', '2', 'f'),
{
    reveal_strlit("__sf_i32_to_f32");
    reveal_strlit("i2f_nonzero");
    reveal_strlit("i2f_pos");
    reveal_strlit("i2f_mag_done");
    reveal_strlit("i2f_np");
    reveal_strlit("_npl");
    reveal_strlit("_nple");
    reveal_strlit("_npr");
    reveal_strlit("_nprs");
    reveal_strlit("_npre");
    reveal_strlit("_npu");
    reveal_strlit("_npo");
    reveal_strlit("_npd");
}

proof fn lemma_u2f_labels()
    ensures
        label_key("__sf_u32_to_f32"@) == 14072676177871,
        !prefixed("__sf_u32_to_f32"@, 'u', '2', 'f'),
        label_key("u2f_nonzero"@) == 31455729933195,
        prefixed("u2f_nonzero"@, 'u', '2', 'f'),
        label_key("u2f_np"@ + "_npl"@) == 30902689995658,
        prefixed("u2f_np"@ + "_npl"@, 'u', '2', 'f'),
        label_key("u2f_np"@ + "_nple"@) == 29795662175115,
        prefixed("u2f_np"@ + "_nple"@, 'u', '2', 'f'),
        label_key("u2f_np"@ + "_npr"@) == 30909132446602,
        prefixed("u2f_np"@ + "_npr"@, 'u', '2', 'f'),
        label_key("u2f_np"@ + "_nprs"@) == 31459962002315,
        prefixed("u2f_np"@ + "_nprs"@, 'u', '2', 'f'),
        label_key("u2f_np"@ + "_npre"@) == 31444929616779,
        prefixed("u2f_np"@ + "_npre"@, 'u', '2', 'f'),
        label_key("u2f_np"@ + "_npu"@) == 30912353672074,
        prefixed("u2f_np"@ + "_npu"@, 'u', '2', 'f'),
        label_key("u2f_np"@ + "_npo"@) == 30905911221130,
        prefixed("u2f_np"@ + "_npo"@, 'u', '2', 'f'),
        label_key("u2f_np"@ + "_npd"@) == 30894100061066,
        prefixed("u2f_np"@ + "_npd"@, 'u', '2', 'f'),
{
    reveal_strlit("__sf_u32_to_f32");
    reveal_strlit("u2f_nonzero");
    reveal_strlit("u2f_np");
    reveal_strlit("_npl");
    reveal_strlit("_nple");
    reveal_strlit("_npr");
    reveal_strlit("_nprs");
    reveal_strlit("_npre");
    reveal_strlit("_npu");
    reveal_strlit("_npo");
    reveal_strlit("_npd");
}

proof fn lemma_f2i_labels()
    ensures
        label_key("__sf_f32_to_i32"@) == 14072675932111,
        !prefixed("__sf_f32_to_i32"@, 'f', '2', 'i'),
        label_key("f2i_d"@ + "_dz"@) == 27619208190216,
        prefixed("f2i_d"@ + "_dz"@, 'f', '2', 'i'),
        label_key("f2i_d"@ + "_dj"@) == 27602028321032,
        prefixed("f2i_d"@ + "_dj"@, 'f', '2', 'i'),
        label_key("f2i_inf_max"@) == 26792435620427,
        prefixed("f2i_inf_max"@, 'f', '2', 'i'),
        label_key("f2i_not_inf"@) == 30346579794827,
        prefixed("f2i_not_inf"@, 'f', '2', 'i'),
        label_key("f2i_shl_loop"@) == 30632161451212,
        prefixed("f2i_shl_loop"@, 'f', '2', 'i'),
        label_key("f2i_shl_done"@) == 30345472384204,
        prefixed("f2i_shl_done"@, 'f', '2', 'i'),
        label_key("f2i_overflow"@) == 30639648512972,
        prefixed("f2i_overflow"@, 'f', '2', 'i'),
        label_key("f2i_of_max"@) == 26792406129610,
        prefixed("f2i_of_max"@, 'f', '2', 'i'),
        label_key("f2i_eneg"@) == 27873689442632,
        prefixed("f2i_eneg"@, 'f', '2', 'i'),
        label_key("f2i_shr_loop"@) == 30632186617036,
        prefixed("f2i_shr_loop"@, 'f', '2', 'i'),
        label_key("f2i_shr_done"@) == 30345497550028,
        prefixed("f2i_shr_done"@, 'f', '2', 'i'),
        label_key("f2i_shr_zero"@) == 31455746596044,
        prefixed("f2i_shr_zero"@, 'f', '2', 'i'),
        label_key("f2i_have_mag"@) == 26774248905228,
        prefixed("f2i_have_mag"@, 'f', '2', 'i'),
        label_key("f2i_pos_signed"@) == 27870526954510,
        prefixed("f2i_pos_signed"@, 'f', '2', 'i'),
        label_key("f2i_ret_zero"@) == 31455754935436,
        prefixed("f2i_ret_zero"@, 'f', '2', 'i'),
{
    reveal_strlit("__sf_f32_to_i32");
    reveal_strlit("f2i_d");
    reveal_strlit("_dz");
    reveal_strlit("_dj");
    reveal_strlit("f2i_inf_max");
    reveal_strlit("f2i_not_inf");
    reveal_strlit("f2i_shl_loop");
    reveal_strlit("f2i_shl_done");
    reveal_strlit("f2i_overflow");
    reveal_strlit("f2i_of_max");
    reveal_strlit("f2i_eneg");
    reveal_strlit("f2i_shr_loop");
    reveal_strlit("f2i_shr_done");
    reveal_strlit("f2i_shr_zero");
    reveal_strlit("f2i_have_mag");
    reveal_strlit("f2i_pos_signed");
    reveal_strlit("f2i_ret_zero");
}

proof fn lemma_f2u_labels()
    ensures
        label_key("__sf_f32_to_u32"@) == 14072675932111,
        !prefixed("__sf_f32_to_u32"@, 'f', '2', 'u'),
        label_key("f2u_d"@ + "_dz"@) == 27619208190216,
        prefixed("f2u_d"@ + "_dz"@, 'f', '2', 'u'),
        label_key("f2u_d"@ + "_dj"@) == 27602028321032,
        prefixed("f2u_d"@ + "_dj"@, 'f', '2', 'u'),
        label_key("f2u_sign_ok"@) == 30626771786955,
        prefixed("f2u_sign_ok"@, 'f', '2', 'u'),
        label_key("f2u_not_inf"@) == 30346579794827,
        prefixed("f2u_not_inf"@, 'f', '2', 'u'),
        label_key("f2u_shl_loop"@) == 30632161451212,
        prefixed("f2u_shl_loop"@, 'f', '2', 'u'),
        label_key("f2u_shl_done"@) == 30345472384204,
        prefixed("f2u_shl_done"@, 'f', '2', 'u'),
        label_key("f2u_overflow"@) == 30639648512972,
        prefixed("f2u_overflow"@, 'f', '2', 'u'),
        label_key("f2u_eneg"@) == 27873689442632,
        prefixed("f2u_eneg"@, 'f', '2', 'u'),
        label_key("f2u_shr_loop"@) == 30632186617036,
        prefixed("f2u_shr_loop"@, 'f', '2', 'u'),
        label_key("f2u_shr_done"@) == 30345497550028,
        prefixed("f2u_shr_done"@, 'f', '2', 'u'),
        label_key("f2u_shr_zero"@) == 31455746596044,
        prefixed("f2u_shr_zero"@, 'f', '2', 'u'),
        label_key("f2u_ret_zero"@) == 31455754935436,
        prefixed("f2u_ret_zero"@, 'f', '2', 'u'),
{
    reveal_strlit("__sf_f32_to_u32");
    reveal_strlit("f2u_d");
    reveal_strlit("_dz");
    reveal_strlit("_dj");
    reveal_strlit("f2u_sign_ok");
    reveal_strlit("f2u_not_inf");
    reveal_strlit("f2u_shl_loop");
    reveal_strlit("f2u_shl_done");
    reveal_strlit("f2u_overflow");
    reveal_strlit("f2u_eneg");
    reveal_strlit("f2u_shr_loop");
    reveal_strlit("f2u_shr_done");
    reveal_strlit("f2u_shr_zero");
    reveal_strlit("f2u_ret_zero");
}

/// `out = 1` if the pattern in `bits` is a NaN, else 0.
pub open spec fn is_nan_asm(bits: u8, out: u8, t0: u8, t1: u8) -> Seq<Asm> {
    seq![
        Asm::Shift(ShiftOp::Srli, t0, bits, 23),
        Asm::Imm(ImmOp::Andi, t0, t0, 0xFF),
        Asm::Shift(ShiftOp::Slli, t1, bits, 9),
        Asm::Shift(ShiftOp::Srli, t1, t1, 9),
        Asm::Imm(ImmOp::Xori, t0, t0, 0xFF),
        Asm::Imm(ImmOp::Sltiu, t0, t0, 1),
        Asm::Alu(AluOp::Sltu, t1, ZERO, t1),
        Asm::Alu(AluOp::And, out, t0, t1),
    ]
}

/// `out = 1` if the pattern in `bits` is an infinity, else 0.
pub open spec fn is_inf_asm(bits: u8, out: u8, t0: u8, t1: u8) -> Seq<Asm> {
    seq![
        Asm::Shift(ShiftOp::Srli, t0, bits, 23),
        Asm::Imm(ImmOp::Andi, t0, t0, 0xFF),
        Asm::Shift(ShiftOp::Slli, t1, bits, 9),
        Asm::Shift(ShiftOp::Srli, t1, t1, 9),
        Asm::Imm(ImmOp::Xori, t0, t0, 0xFF),
        Asm::Imm(ImmOp::Sltiu, t0, t0, 1),
        Asm::Imm(ImmOp::Sltiu, t1, t1, 1),
        Asm::Alu(AluOp::And, out, t0, t1),
    ]
}

/// The sign, exponent field and significand of the pattern in `bits`.
pub open spec fn decompose_asm(
    tag: Seq<char>,
    bits: u8,
    sign: u8,
    exp: u8,
    mant: u8,
    t0: u8,
) -> Seq<Asm> {
    seq![
        Asm::Shift(ShiftOp::Srli, exp, bits, 23),
        Asm::Imm(ImmOp::Andi, exp, exp, 0xFF),
        Asm::Shift(ShiftOp::Slli, mant, bits, 9),
        Asm::Shift(ShiftOp::Srli, mant, mant, 9),
        Asm::Shift(ShiftOp::Srli, sign, bits, 31),
        Asm::Branch(BCond::Eq, exp, ZERO, tag + "_dz"@),
        Asm::Li(t0, 0x0080_0000),
        Asm::Alu(AluOp::Or, mant, mant, t0),
        Asm::Jal(ZERO, tag + "_dj"@),
        Asm::Label(tag + "_dz"@),
        mv_asm(mant, ZERO),
        Asm::Label(tag + "_dj"@),
    ]
}

/// Shifts the pair left by one bit.
pub open spec fn shl64_asm(lo: u8, hi: u8, t0: u8) -> Seq<Asm> {
    seq![
        Asm::Shift(ShiftOp::Srli, t0, lo, 31),
        Asm::Shift(ShiftOp::Slli, hi, hi, 1),
        Asm::Alu(AluOp::Or, hi, hi, t0),
        Asm::Shift(ShiftOp::Slli, lo, lo, 1),
    ]
}

/// Shifts the pair right by one bit.
pub open spec fn shr64_asm(lo: u8, hi: u8, t0: u8, t1: u8) -> Seq<Asm> {
    seq![
        Asm::Imm(ImmOp::Andi, t0, hi, 1),
        Asm::Shift(ShiftOp::Srli, lo, lo, 1),
        Asm::Shift(ShiftOp::Slli, t1, t0, 31),
        Asm::Alu(AluOp::Or, lo, lo, t1),
        Asm::Shift(ShiftOp::Srli, hi, hi, 1),
    ]
}

/// Shifts the pair left until bit 23 or a higher one is set.
pub open spec fn norm_left_asm(
    tag: Seq<char>,
    mlo: u8,
    mhi: u8,
    exp2: u8,
    ta: u8,
    tc: u8,
) -> Seq<Asm> {
    seq![
        Asm::Li(tc, 0x0080_0000),
        Asm::Label(tag + "_npl"@),
        Asm::Branch(BCond::Ne, mhi, ZERO, tag + "_nple"@),
        Asm::Branch(BCond::Geu, mlo, tc, tag + "_nple"@),
    ] + shl64_asm(mlo, mhi, ta) + seq![
        addi_asm(exp2, exp2, -1),
        Asm::Jal(ZERO, tag + "_npl"@),
        Asm::Label(tag + "_nple"@),
    ]
}

/// Shifts the pair right until bit 23 is the highest one set.
pub open spec fn norm_right_asm(
    tag: Seq<char>,
    mlo: u8,
    mhi: u8,
    exp2: u8,
    ta: u8,
    tb: u8,
    tc: u8,
) -> Seq<Asm> {
    seq![
        Asm::Li(tc, 0x0100_0000),
        Asm::Label(tag + "_npr"@),
        Asm::Branch(BCond::Ne, mhi, ZERO, tag + "_nprs"@),
        Asm::Branch(BCond::Geu, mlo, tc, tag + "_nprs"@),
        Asm::Jal(ZERO, tag + "_npre"@),
        Asm::Label(tag + "_nprs"@),
    ] + shr64_asm(mlo, mhi, ta, tb) + seq![
        addi_asm(exp2, exp2, 1),
        Asm::Jal(ZERO, tag + "_npr"@),
        Asm::Label(tag + "_npre"@),
    ]
}

/// The pattern of a 24-bit significand at an exponent.
pub open spec fn norm_pack_asm(
    tag: Seq<char>,
    sign: u8,
    mlo: u8,
    exp2: u8,
    out: u8,
    ta: u8,
    tb: u8,
    tc: u8,
    td: u8,
) -> Seq<Asm> {
    seq![
        addi_asm(exp2, exp2, 127),
        Asm::Li(tc, 1),
        Asm::Branch(BCond::Lt, exp2, tc, tag + "_npu"@),
        Asm::Li(tc, 0xFF),
        Asm::Branch(BCond::Ge, exp2, tc, tag + "_npo"@),
        Asm::Shift(ShiftOp::Slli, ta, sign, 31),
        Asm::Shift(ShiftOp::Slli, tb, exp2, 23),
        Asm::Alu(AluOp::Or, ta, ta, tb),
        Asm::Li(tc, 0x0080_0000),
        Asm::Alu(AluOp::Xor, td, mlo, tc),
        Asm::Alu(AluOp::Or, out, ta, td),
        Asm::Jal(ZERO, tag + "_npd"@),
        Asm::Label(tag + "_npu"@),
        Asm::Shift(ShiftOp::Slli, out, sign, 31),
        Asm::Jal(ZERO, tag + "_npd"@),
        Asm::Label(tag + "_npo"@),
        Asm::Li(tc, 0x7F80_0000),
        Asm::Shift(ShiftOp::Slli, ta, sign, 31),
        Asm::Alu(AluOp::Or, out, ta, tc),
        Asm::Label(tag + "_npd"@),
    ]
}

/// Rounds the positive pair `(mlo, mhi)` at exponent `exp2` toward zero into `out`.
pub open spec fn norm_asm(
    tag: Seq<char>,
    sign: u8,
    mlo: u8,
    mhi: u8,
    exp2: u8,
    out: u8,
    ta: u8,
    tb: u8,
    tc: u8,
    td: u8,
) -> Seq<Asm> {
    norm_left_asm(tag, mlo, mhi, exp2, ta, tc) + norm_right_asm(tag, mlo, mhi, exp2, ta, tb, tc)
        + norm_pack_asm(
        tag,
        sign,
        mlo,
        exp2,
        out,
        ta,
        tb,
        tc,
        td,
    )
}

/// Keeps the operands.
pub open spec fn add_start_asm() -> Seq<Asm> {
    seq![
        Asm::Label("__sf_f32_add"@),
        mv_asm(T0, A0),
        mv_asm(T1, A1),
    ]
}

/// A NaN returns at once.
pub open spec fn add_nan_a_asm() -> Seq<Asm> {
    seq![
        Asm::Branch(BCond::Ne, S2, ZERO, "add_ret_nan"@),
    ]
}

/// A NaN returns at once.
pub open spec fn add_nan_b_asm() -> Seq<Asm> {
    seq![
        Asm::Branch(BCond::Ne, S3, ZERO, "add_ret_nan"@),
    ]
}

/// Splits both operands; a NaN returns at once.
pub open spec fn add_entry_asm() -> Seq<Asm> {
    add_start_asm() + is_nan_asm(T0, S2, A2, A3) + add_nan_a_asm() + is_nan_asm(T1, S3, A2, A3)
        + add_nan_b_asm() + decompose_asm(
        "add_da"@,
        T0,
        S4,
        S5,
        S6,
        A2,
    ) + decompose_asm("add_db"@, T1, S7, S8, S9, A2) + is_inf_asm(T0, A4, A2, A3) + is_inf_asm(T1,
        A5, A2, A3)
}

/// Infinities and zeros.
pub open spec fn add_special_asm() -> Seq<Asm> {
    seq![
        Asm::Branch(BCond::Eq, A4, ZERO, "add_skip_ii"@),
        Asm::Branch(BCond::Eq, A5, ZERO, "add_skip_ii"@),
        Asm::Branch(BCond::Ne, S4, S7, "add_ret_nan"@),
        Asm::Jal(ZERO, "add_ret_a"@),
        Asm::Label("add_skip_ii"@),
        Asm::Branch(BCond::Ne, A4, ZERO, "add_ret_a"@),
        Asm::Branch(BCond::Ne, A5, ZERO, "add_ret_b"@),
        Asm::Imm(ImmOp::Sltiu, A2, S5, 1),
        Asm::Imm(ImmOp::Sltiu, A3, S6, 1),
        Asm::Alu(AluOp::And, A6, A2, A3),
        Asm::Imm(ImmOp::Sltiu, A2, S8, 1),
        Asm::Imm(ImmOp::Sltiu, A3, S9, 1),
        Asm::Alu(AluOp::And, A7, A2, A3),
        Asm::Branch(BCond::Eq, A6, ZERO, "add_skip_zz"@),
        Asm::Branch(BCond::Eq, A7, ZERO, "add_skip_zz"@),
        Asm::Branch(BCond::Ne, S4, S7, "add_ret_zero"@),
        Asm::Shift(ShiftOp::Slli, A0, S4, 31),
        ret_asm(),
        Asm::Label("add_skip_zz"@),
        Asm::Branch(BCond::Ne, A6, ZERO, "add_ret_b"@),
        Asm::Branch(BCond::Ne, A7, ZERO, "add_ret_a"@),
    ]
}

/// Names the operand of larger magnitude the big one.
pub open spec fn add_pick_asm() -> Seq<Asm> {
    seq![
        Asm::Alu(AluOp::Sltu, A2, S8, S5),
        Asm::Branch(BCond::Ne, A2, ZERO, "add_pick_a"@),
        Asm::Branch(BCond::Ne, S5, S8, "add_pick_b"@),
        Asm::Alu(AluOp::Sltu, A3, S6, S9),
        Asm::Branch(BCond::Ne, A3, ZERO, "add_pick_b"@),
        Asm::Jal(ZERO, "add_pick_a"@),
        Asm::Label("add_pick_b"@),
        mv_asm(S2, S7),
        mv_asm(S3, S8),
        mv_asm(A4, S9),
        mv_asm(A5, S4),
        mv_asm(A6, S5),
        mv_asm(A7, S6),
        Asm::Jal(ZERO, "add_picked"@),
        Asm::Label("add_pick_a"@),
        mv_asm(S2, S4),
        mv_asm(S3, S5),
        mv_asm(A4, S6),
        mv_asm(A5, S7),
        mv_asm(A6, S8),
        mv_asm(A7, S9),
        Asm::Label("add_picked"@),
    ]
}

/// The small significand in a window of 24 extra bits, with a sticky bit.
pub open spec fn add_align_asm() -> Seq<Asm> {
    seq![
        Asm::Alu(AluOp::Sub, S4, S3, A6),
        Asm::Li(T2, 24),
        Asm::Branch(BCond::Lt, S4, T2, "add_k_diff"@),
        mv_asm(S5, T2),
        Asm::Jal(ZERO, "add_k_done"@),
        Asm::Label("add_k_diff"@),
        mv_asm(S5, S4),
        Asm::Label("add_k_done"@),
        Asm::Li(T2, 24),
        Asm::Branch(BCond::Lt, T2, S4, "add_sw_far"@),
        mv_asm(S6, A7),
        Asm::Jal(ZERO, "add_sw_done"@),
        Asm::Label("add_sw_far"@),
        Asm::Alu(AluOp::Sub, S8, S4, T2),
        Asm::Li(T2, 24),
        Asm::Branch(BCond::Ge, S8, T2, "add_sw_sat"@),
        mv_asm(S6, A7),
        mv_asm(S7, ZERO),
        Asm::Label("add_sw_loop"@),
        Asm::Branch(BCond::Eq, S8, ZERO, "add_sw_loop_done"@),
        Asm::Imm(ImmOp::Andi, T2, S6, 1),
        Asm::Alu(AluOp::Or, S7, S7, T2),
        Asm::Shift(ShiftOp::Srli, S6, S6, 1),
        addi_asm(S8, S8, -1),
        Asm::Jal(ZERO, "add_sw_loop"@),
        Asm::Label("add_sw_loop_done"@),
        Asm::Alu(AluOp::Or, S6, S6, S7),
        Asm::Jal(ZERO, "add_sw_done"@),
        Asm::Label("add_sw_sat"@),
        Asm::Li(S6, 1),
        Asm::Label("add_sw_done"@),
    ]
}

/// A loop over the bits of the window.
pub open spec fn add_shift_loop_asm() -> Seq<Asm> {
    seq![
        mv_asm(S9, ZERO),
        mv_asm(S8, S5),
        Asm::Label("add_bw_loop"@),
        Asm::Branch(BCond::Eq, S8, ZERO, "add_bw_done"@),
    ]
}

/// Its end, and the exponent of the window.
pub open spec fn add_shift_end_asm() -> Seq<Asm> {
    seq![
        addi_asm(S8, S8, -1),
        Asm::Jal(ZERO, "add_bw_loop"@),
        Asm::Label("add_bw_done"@),
        mv_asm(T3, S3),
        addi_asm(T3, T3, -127),
        Asm::Alu(AluOp::Sub, T3, T3, S5),
    ]
}

/// The big significand in the same window.
pub open spec fn add_widen_asm() -> Seq<Asm> {
    add_shift_loop_asm() + shl64_asm(A4, S9, T2) + add_shift_end_asm()
}

/// The sum, with its carry.
pub open spec fn add_sum_asm() -> Seq<Asm> {
    seq![
        Asm::Branch(BCond::Ne, S2, A5, "add_diffsign"@),
        Asm::Alu(AluOp::Add, T4, A4, S6),
        Asm::Alu(AluOp::Sltu, T5, T4, A4),
        Asm::Alu(AluOp::Add, T6, S9, T5),
    ]
}

/// The sum is the result.
pub open spec fn add_sum_ret_asm() -> Seq<Asm> {
    seq![
        ret_asm(),
    ]
}

/// The sum of the magnitudes.
pub open spec fn add_same_sign_asm() -> Seq<Asm> {
    add_sum_asm() + norm_asm("add_sum"@, S2, T4, T6, T3, A0, A2, A3, T2, T5) + add_sum_ret_asm()
}

/// The difference, with its borrow; none is a zero.
pub open spec fn add_diff_asm() -> Seq<Asm> {
    seq![
        Asm::Label("add_diffsign"@),
        Asm::Alu(AluOp::Sltu, T5, A4, S6),
        Asm::Alu(AluOp::Sub, T4, A4, S6),
        Asm::Alu(AluOp::Sub, T6, S9, T5),
        Asm::Alu(AluOp::Or, T2, T4, T6),
        Asm::Branch(BCond::Ne, T2, ZERO, "add_diff_nz"@),
        Asm::Li(A0, 0),
        ret_asm(),
        Asm::Label("add_diff_nz"@),
    ]
}

/// The difference is the result.
pub open spec fn add_diff_ret_asm() -> Seq<Asm> {
    seq![
        ret_asm(),
    ]
}

/// The difference of the magnitudes.
pub open spec fn add_opposite_sign_asm() -> Seq<Asm> {
    add_diff_asm() + norm_asm("add_diff"@, S2, T4, T6, T3, A0, A2, A3, T2, T5) + add_diff_ret_asm()
}

/// The results that need no arithmetic.
pub open spec fn add_returns_asm() -> Seq<Asm> {
    seq![
        Asm::Label("add_ret_nan"@),
        Asm::Li(A0, 0x7fc0_0000),
        ret_asm(),
        Asm::Label("add_ret_a"@),
        mv_asm(A0, T0),
        ret_asm(),
        Asm::Label("add_ret_b"@),
        mv_asm(A0, T1),
        ret_asm(),
        Asm::Label("add_ret_zero"@),
        Asm::Li(A0, 0),
        ret_asm(),
    ]
}

/// `__sf_f32_add`: `a0 = a0 + a1`.
pub open spec fn f32_add_asm() -> Seq<Asm> {
    add_entry_asm() + add_special_asm() + add_pick_asm() + add_align_asm() + add_widen_asm()
        + add_same_sign_asm() + add_opposite_sign_asm() + add_returns_asm()
}

/// Keeps the operands and the sign of the result.
pub open spec fn mul_start_asm() -> Seq<Asm> {
    seq![
        Asm::Label("__sf_f32_mul"@),
        mv_asm(T0, A0),
        mv_asm(T1, A1),
        Asm::Shift(ShiftOp::Srli, S2, T0, 31),
        Asm::Shift(ShiftOp::Srli, S3, T1, 31),
        Asm::Alu(AluOp::Xor, S2, S2, S3),
    ]
}

/// A NaN returns at once.
pub open spec fn mul_nan_a_asm() -> Seq<Asm> {
    seq![
        Asm::Branch(BCond::Ne, S4, ZERO, "mul_ret_nan"@),
    ]
}

/// A NaN returns at once.
pub open spec fn mul_nan_b_asm() -> Seq<Asm> {
    seq![
        Asm::Branch(BCond::Ne, S4, ZERO, "mul_ret_nan"@),
    ]
}

/// Which operands are zero.
pub open spec fn mul_zeros_asm() -> Seq<Asm> {
    seq![
        Asm::Imm(ImmOp::Sltiu, A2, S5, 1),
        Asm::Imm(ImmOp::Sltiu, A3, S6, 1),
        Asm::Alu(AluOp::And, A5, A2, A3),
        Asm::Imm(ImmOp::Sltiu, A2, S7, 1),
        Asm::Imm(ImmOp::Sltiu, A3, S8, 1),
        Asm::Alu(AluOp::And, A6, A2, A3),
    ]
}

/// Splits both operands; a NaN returns at once.
pub open spec fn mul_entry_asm() -> Seq<Asm> {
    mul_start_asm() + is_nan_asm(T0, S4, A2, A3) + mul_nan_a_asm() + is_nan_asm(T1, S4, A2, A3)
        + mul_nan_b_asm() + decompose_asm(
        "mul_da"@,
        T0,
        T2,
        S5,
        S6,
        A2,
    ) + decompose_asm("mul_db"@, T1, T3, S7, S8, A2) + is_inf_asm(T0, S9, A2, A3) + is_inf_asm(T1,
        A4, A2, A3) + mul_zeros_asm()
}

/// Infinities and zeros.
pub open spec fn mul_special_asm() -> Seq<Asm> {
    seq![
        Asm::Alu(AluOp::And, A7, S9, A6),
        Asm::Branch(BCond::Ne, A7, ZERO, "mul_ret_nan"@),
        Asm::Alu(AluOp::And, A7, A4, A5),
        Asm::Branch(BCond::Ne, A7, ZERO, "mul_ret_nan"@),
        Asm::Alu(AluOp::Or, A7, S9, A4),
        Asm::Branch(BCond::Ne, A7, ZERO, "mul_ret_inf"@),
        Asm::Alu(AluOp::Or, A7, A5, A6),
        Asm::Branch(BCond::Ne, A7, ZERO, "mul_ret_zero"@),
    ]
}

/// The product and its exponent.
pub open spec fn mul_wide_asm() -> Seq<Asm> {
    seq![
        Asm::Mul(MulOp::Mul, T4, S6, S8),
        Asm::Mul(MulOp::Mulhu, T5, S6, S8),
        Asm::Alu(AluOp::Add, T6, S5, S7),
        addi_asm(T6, T6, -277),
    ]
}

/// A result without a magnitude is a zero.
pub open spec fn mul_end_asm() -> Seq<Asm> {
    seq![
        Asm::Li(T3, 0x7FFF_FFFF),
        Asm::Alu(AluOp::And, T3, A0, T3),
        Asm::Branch(BCond::Ne, T3, ZERO, "mul_done"@),
        Asm::Shift(ShiftOp::Slli, A0, S2, 31),
        Asm::Label("mul_done"@),
        ret_asm(),
    ]
}

/// The rounded product of the significands.
pub open spec fn mul_product_asm() -> Seq<Asm> {
    mul_wide_asm() + norm_asm("mul_np"@, S2, T4, T5, T6, A0, A2, A3, A7, T2) + mul_end_asm()
}

/// The results that need no arithmetic.
pub open spec fn mul_returns_asm() -> Seq<Asm> {
    seq![
        Asm::Label("mul_ret_nan"@),
        Asm::Li(A0, 0x7fc0_0000),
        ret_asm(),
        Asm::Label("mul_ret_inf"@),
        Asm::Li(T2, 0x7F80_0000),
        Asm::Shift(ShiftOp::Slli, T3, S2, 31),
        Asm::Alu(AluOp::Or, A0, T3, T2),
        ret_asm(),
        Asm::Label("mul_ret_zero"@),
        Asm::Shift(ShiftOp::Slli, A0, S2, 31),
        ret_asm(),
    ]
}

/// `__sf_f32_mul`: `a0 = a0 * a1`.
pub open spec fn f32_mul_asm() -> Seq<Asm> {
    mul_entry_asm() + mul_special_asm() + mul_product_asm() + mul_returns_asm()
}

/// Keeps the operands and the sign of the result.
pub open spec fn div_start_asm() -> Seq<Asm> {
    seq![
        Asm::Label("__sf_f32_div"@),
        mv_asm(T0, A0),
        mv_asm(T1, A1),
        Asm::Shift(ShiftOp::Srli, S2, T0, 31),
        Asm::Shift(ShiftOp::Srli, S3, T1, 31),
        Asm::Alu(AluOp::Xor, S2, S2, S3),
    ]
}

/// A NaN returns at once.
pub open spec fn div_nan_a_asm() -> Seq<Asm> {
    seq![
        Asm::Branch(BCond::Ne, S4, ZERO, "div_ret_nan"@),
    ]
}

/// A NaN returns at once.
pub open spec fn div_nan_b_asm() -> Seq<Asm> {
    seq![
        Asm::Branch(BCond::Ne, S4, ZERO, "div_ret_nan"@),
    ]
}

/// Which operands are zero.
pub open spec fn div_zeros_asm() -> Seq<Asm> {
    seq![
        Asm::Imm(ImmOp::Sltiu, A2, S5, 1),
        Asm::Imm(ImmOp::Sltiu, A3, S6, 1),
        Asm::Alu(AluOp::And, A5, A2, A3),
        Asm::Imm(ImmOp::Sltiu, A2, S7, 1),
        Asm::Imm(ImmOp::Sltiu, A3, S8, 1),
        Asm::Alu(AluOp::And, A6, A2, A3),
    ]
}

/// Splits both operands; a NaN returns at once.
pub open spec fn div_entry_asm() -> Seq<Asm> {
    div_start_asm() + is_nan_asm(T0, S4, A2, A3) + div_nan_a_asm() + is_nan_asm(T1, S4, A2, A3)
        + div_nan_b_asm() + decompose_asm(
        "div_da"@,
        T0,
        T2,
        S5,
        S6,
        A2,
    ) + decompose_asm("div_db"@, T1, T3, S7, S8, A2) + is_inf_asm(T0, S9, A2, A3) + is_inf_asm(T1,
        A4, A2, A3) + div_zeros_asm()
}

/// Infinities and zeros.
pub open spec fn div_special_asm() -> Seq<Asm> {
    seq![
        Asm::Alu(AluOp::And, A7, S9, A4),
        Asm::Branch(BCond::Ne, A7, ZERO, "div_ret_nan"@),
        Asm::Alu(AluOp::And, A7, A5, A6),
        Asm::Branch(BCond::Ne, A7, ZERO, "div_ret_nan"@),
        Asm::Branch(BCond::Ne, S9, ZERO, "div_ret_inf"@),
        Asm::Branch(BCond::Ne, A5, ZERO, "div_ret_zero"@),
        Asm::Branch(BCond::Ne, A4, ZERO, "div_ret_zero"@),
        Asm::Branch(BCond::Ne, A6, ZERO, "div_ret_inf"@),
    ]
}

/// The quotient of the significands to 24 fractional bits.
pub open spec fn div_quotient_asm() -> Seq<Asm> {
    seq![
        Asm::Mul(MulOp::Divu, T4, S6, S8),
        Asm::Mul(MulOp::Remu, T5, S6, S8),
        mv_asm(T6, T4),
        Asm::Shift(ShiftOp::Slli, T5, T5, 8),
        Asm::Mul(MulOp::Divu, A2, T5, S8),
        Asm::Mul(MulOp::Remu, T5, T5, S8),
        Asm::Shift(ShiftOp::Slli, T6, T6, 8),
        Asm::Alu(AluOp::Or, T6, T6, A2),
        Asm::Shift(ShiftOp::Slli, T5, T5, 8),
        Asm::Mul(MulOp::Divu, A2, T5, S8),
        Asm::Mul(MulOp::Remu, T5, T5, S8),
        Asm::Shift(ShiftOp::Slli, T6, T6, 8),
        Asm::Alu(AluOp::Or, T6, T6, A2),
        Asm::Shift(ShiftOp::Slli, T5, T5, 8),
        Asm::Mul(MulOp::Divu, A2, T5, S8),
        Asm::Mul(MulOp::Remu, T5, T5, S8),
        Asm::Shift(ShiftOp::Slli, T6, T6, 8),
        Asm::Alu(AluOp::Or, T6, T6, A2),
    ]
}

/// The exponent of the quotient.
pub open spec fn div_exponent_asm() -> Seq<Asm> {
    seq![
        Asm::Alu(AluOp::Sub, A7, S5, S7),
        addi_asm(A7, A7, -1),
        mv_asm(T2, ZERO),
    ]
}

/// A result without a magnitude is a zero.
pub open spec fn div_end_asm() -> Seq<Asm> {
    seq![
        Asm::Li(S7, 0x7FFF_FFFF),
        Asm::Alu(AluOp::And, S7, A0, S7),
        Asm::Branch(BCond::Ne, S7, ZERO, "div_done"@),
        Asm::Shift(ShiftOp::Slli, A0, S2, 31),
        Asm::Label("div_done"@),
        ret_asm(),
    ]
}

/// The rounded quotient.
pub open spec fn div_round_asm() -> Seq<Asm> {
    div_exponent_asm() + norm_asm("div_np"@, S2, T6, T2, A7, A0, A2, A3, S5, S6) + div_end_asm()
}

/// The results that need no arithmetic.
pub open spec fn div_returns_asm() -> Seq<Asm> {
    seq![
        Asm::Label("div_ret_nan"@),
        Asm::Li(A0, 0x7fc0_0000),
        ret_asm(),
        Asm::Label("div_ret_zero"@),
        Asm::Shift(ShiftOp::Slli, A0, S2, 31),
        ret_asm(),
        Asm::Label("div_ret_inf"@),
        Asm::Li(T2, 0x7F80_0000),
        Asm::Shift(ShiftOp::Slli, T3, S2, 31),
        Asm::Alu(AluOp::Or, A0, T3, T2),
        ret_asm(),
    ]
}

/// `__sf_f32_div`: `a0 = a0 / a1`.
pub open spec fn f32_div_asm() -> Seq<Asm> {
    div_entry_asm() + div_special_asm() + div_quotient_asm() + div_round_asm() + div_returns_asm()
}

/// Keeps the operands.
pub open spec fn cmp_start_asm() -> Seq<Asm> {
    seq![
        Asm::Label("__sf_f32_cmp"@),
        mv_asm(T0, A0),
        mv_asm(T1, A1),
    ]
}

/// A NaN returns at once.
pub open spec fn cmp_nan_a_asm() -> Seq<Asm> {
    seq![
        Asm::Branch(BCond::Ne, S2, ZERO, "cmp_ret_m2"@),
    ]
}

/// A NaN returns at once.
pub open spec fn cmp_nan_b_asm() -> Seq<Asm> {
    seq![
        Asm::Branch(BCond::Ne, S2, ZERO, "cmp_ret_m2"@),
    ]
}

/// Which operands are zero.
pub open spec fn cmp_which_zeros_asm() -> Seq<Asm> {
    seq![
        Asm::Imm(ImmOp::Sltiu, A2, S5, 1),
        Asm::Imm(ImmOp::Sltiu, A3, S6, 1),
        Asm::Alu(AluOp::And, A4, A2, A3),
        Asm::Imm(ImmOp::Sltiu, A2, S8, 1),
        Asm::Imm(ImmOp::Sltiu, A3, S9, 1),
        Asm::Alu(AluOp::And, A5, A2, A3),
    ]
}

/// Splits both operands; a NaN returns at once.
pub open spec fn cmp_entry_asm() -> Seq<Asm> {
    cmp_start_asm() + is_nan_asm(T0, S2, A2, A3) + cmp_nan_a_asm() + is_nan_asm(T1, S2, A2, A3)
        + cmp_nan_b_asm() + decompose_asm(
        "cmp_da"@,
        T0,
        S4,
        S5,
        S6,
        A2,
    ) + decompose_asm("cmp_db"@, T1, S7, S8, S9, A2) + cmp_which_zeros_asm()
}

/// Where one operand is zero, the sign of the other decides.
pub open spec fn cmp_zeros_asm() -> Seq<Asm> {
    seq![
        Asm::Branch(BCond::Eq, A4, ZERO, "cmp_skip_zz"@),
        Asm::Branch(BCond::Eq, A5, ZERO, "cmp_skip_zz"@),
        Asm::Jal(ZERO, "cmp_ret_0"@),
        Asm::Label("cmp_skip_zz"@),
        Asm::Branch(BCond::Eq, A4, ZERO, "cmp_skip_za"@),
        Asm::Branch(BCond::Eq, S7, ZERO, "cmp_za_neg1"@),
        Asm::Li(A0, 1),
        ret_asm(),
        Asm::Label("cmp_za_neg1"@),
        Asm::Li(A0, -1),
        ret_asm(),
        Asm::Label("cmp_skip_za"@),
        Asm::Branch(BCond::Eq, A5, ZERO, "cmp_skip_zb"@),
        Asm::Branch(BCond::Eq, S4, ZERO, "cmp_zb_pos1"@),
        Asm::Li(A0, -1),
        ret_asm(),
        Asm::Label("cmp_zb_pos1"@),
        Asm::Li(A0, 1),
        ret_asm(),
        Asm::Label("cmp_skip_zb"@),
    ]
}

/// Where the signs differ, they decide.
pub open spec fn cmp_signs_asm() -> Seq<Asm> {
    seq![
        Asm::Branch(BCond::Eq, S4, S7, "cmp_same_sign"@),
        Asm::Branch(BCond::Eq, S4, ZERO, "cmp_diffsign_pos"@),
        Asm::Li(A0, -1),
        ret_asm(),
        Asm::Label("cmp_diffsign_pos"@),
        Asm::Li(A0, 1),
        ret_asm(),
        Asm::Label("cmp_same_sign"@),
    ]
}

/// The order of the magnitudes.
pub open spec fn cmp_magnitudes_asm() -> Seq<Asm> {
    seq![
        Asm::Branch(BCond::Eq, S5, S8, "cmp_use_mant"@),
        Asm::Alu(AluOp::Sltu, A2, S5, S8),
        Asm::Branch(BCond::Ne, A2, ZERO, "cmp_mag_lt_e"@),
        Asm::Li(A6, 1),
        Asm::Jal(ZERO, "cmp_mag_done"@),
        Asm::Label("cmp_mag_lt_e"@),
        Asm::Li(A6, -1),
        Asm::Jal(ZERO, "cmp_mag_done"@),
        Asm::Label("cmp_use_mant"@),
        Asm::Branch(BCond::Eq, S6, S9, "cmp_mag_eq"@),
        Asm::Alu(AluOp::Sltu, A2, S6, S9),
        Asm::Branch(BCond::Ne, A2, ZERO, "cmp_mag_lt_m"@),
        Asm::Li(A6, 1),
        Asm::Jal(ZERO, "cmp_mag_done"@),
        Asm::Label("cmp_mag_lt_m"@),
        Asm::Li(A6, -1),
        Asm::Jal(ZERO, "cmp_mag_done"@),
        Asm::Label("cmp_mag_eq"@),
        Asm::Li(A6, 0),
        Asm::Label("cmp_mag_done"@),
    ]
}

/// The order of the values.
pub open spec fn cmp_returns_asm() -> Seq<Asm> {
    seq![
        Asm::Branch(BCond::Eq, S4, ZERO, "cmp_no_negate"@),
        Asm::Alu(AluOp::Sub, A6, ZERO, A6),
        Asm::Label("cmp_no_negate"@),
        mv_asm(A0, A6),
        ret_asm(),
        Asm::Label("cmp_ret_m2"@),
        Asm::Li(A0, -2),
        ret_asm(),
        Asm::Label("cmp_ret_0"@),
        Asm::Li(A0, 0),
        ret_asm(),
    ]
}

/// `__sf_f32_cmp`: `a0` = the order code of `a0` and `a1`.
pub open spec fn f32_cmp_asm() -> Seq<Asm> {
    cmp_entry_asm() + cmp_zeros_asm() + cmp_signs_asm() + cmp_magnitudes_asm() + cmp_returns_asm()
}

/// The sign and the magnitude.
pub open spec fn i2f_entry_asm() -> Seq<Asm> {
    seq![
        Asm::Label("__sf_i32_to_f32"@),
        mv_asm(T0, A0),
        Asm::Branch(BCond::Ne, T0, ZERO, "i2f_nonzero"@),
        Asm::Li(A0, 0),
        ret_asm(),
        Asm::Label("i2f_nonzero"@),
        Asm::Shift(ShiftOp::Srli, S2, T0, 31),
        Asm::Branch(BCond::Eq, S2, ZERO, "i2f_pos"@),
        Asm::Alu(AluOp::Sub, S3, ZERO, T0),
        Asm::Jal(ZERO, "i2f_mag_done"@),
        Asm::Label("i2f_pos"@),
        mv_asm(S3, T0),
        Asm::Label("i2f_mag_done"@),
    ]
}

/// The magnitude as a pair.
pub open spec fn i2f_pair_asm() -> Seq<Asm> {
    seq![
        mv_asm(S4, ZERO),
        Asm::Li(S5, 23),
    ]
}

/// The pattern is the result.
pub open spec fn i2f_ret_asm() -> Seq<Asm> {
    seq![
        ret_asm(),
    ]
}

/// The rounded magnitude.
pub open spec fn i2f_round_asm() -> Seq<Asm> {
    i2f_pair_asm() + norm_asm("i2f_np"@, S2, S3, S4, S5, A0, A2, A3, A6, A7) + i2f_ret_asm()
}

/// `__sf_i32_to_f32`: `a0` = the pattern of the signed integer `a0`.
pub open spec fn i32_to_f32_asm() -> Seq<Asm> {
    i2f_entry_asm() + i2f_round_asm()
}

/// Zero returns at once.
pub open spec fn u2f_entry_asm() -> Seq<Asm> {
    seq![
        Asm::Label("__sf_u32_to_f32"@),
        mv_asm(T0, A0),
        Asm::Branch(BCond::Ne, T0, ZERO, "u2f_nonzero"@),
        Asm::Li(A0, 0),
        ret_asm(),
        Asm::Label("u2f_nonzero"@),
    ]
}

/// The integer as a pair.
pub open spec fn u2f_pair_asm() -> Seq<Asm> {
    seq![
        mv_asm(S2, ZERO),
        mv_asm(S3, T0),
        mv_asm(S4, ZERO),
        Asm::Li(S5, 23),
    ]
}

/// The pattern is the result.
pub open spec fn u2f_ret_asm() -> Seq<Asm> {
    seq![
        ret_asm(),
    ]
}

/// The rounded integer.
pub open spec fn u2f_round_asm() -> Seq<Asm> {
    u2f_pair_asm() + norm_asm("u2f_np"@, S2, S3, S4, S5, A0, A2, A3, A6, A7) + u2f_ret_asm()
}

/// `__sf_u32_to_f32`: `a0` = the pattern of the unsigned integer `a0`.
pub open spec fn u32_to_f32_asm() -> Seq<Asm> {
    u2f_entry_asm() + u2f_round_asm()
}

/// Keeps the operand.
pub open spec fn f2i_start_asm() -> Seq<Asm> {
    seq![
        Asm::Label("__sf_f32_to_i32"@),
        mv_asm(T0, A0),
    ]
}

/// A NaN returns at once.
pub open spec fn f2i_nan_asm() -> Seq<Asm> {
    seq![
        Asm::Branch(BCond::Ne, S2, ZERO, "f2i_ret_zero"@),
    ]
}

/// An infinity or a zero returns at once; the exponent of the last bit.
pub open spec fn f2i_inf_asm() -> Seq<Asm> {
    seq![
        Asm::Branch(BCond::Eq, S6, ZERO, "f2i_not_inf"@),
        Asm::Branch(BCond::Eq, S3, ZERO, "f2i_inf_max"@),
        Asm::Li(A0, i32::MIN as int),
        ret_asm(),
        Asm::Label("f2i_inf_max"@),
        Asm::Li(A0, i32::MAX as int),
        ret_asm(),
        Asm::Label("f2i_not_inf"@),
        Asm::Branch(BCond::Eq, S4, ZERO, "f2i_ret_zero"@),
        mv_asm(S7, S4),
        addi_asm(S7, S7, -127),
        addi_asm(S7, S7, -23),
    ]
}

/// NaN, infinities and zeros return at once.
pub open spec fn f2i_entry_asm() -> Seq<Asm> {
    f2i_start_asm() + is_nan_asm(T0, S2, A2, A3) + f2i_nan_asm() + decompose_asm(
        "f2i_d"@,
        T0,
        S3,
        S4,
        S5,
        A2,
    ) + is_inf_asm(T0, S6, A2, A3) + f2i_inf_asm()
}

/// A magnitude that is an integer, or too large.
pub open spec fn f2i_large_asm() -> Seq<Asm> {
    seq![
        Asm::Branch(BCond::Lt, S7, ZERO, "f2i_eneg"@),
        Asm::Li(A2, 8),
        Asm::Branch(BCond::Ge, S7, A2, "f2i_overflow"@),
        mv_asm(S8, S5),
        mv_asm(S9, S7),
        Asm::Label("f2i_shl_loop"@),
        Asm::Branch(BCond::Eq, S9, ZERO, "f2i_shl_done"@),
        Asm::Shift(ShiftOp::Slli, S8, S8, 1),
        addi_asm(S9, S9, -1),
        Asm::Jal(ZERO, "f2i_shl_loop"@),
        Asm::Label("f2i_shl_done"@),
        Asm::Jal(ZERO, "f2i_have_mag"@),
        Asm::Label("f2i_overflow"@),
        Asm::Branch(BCond::Eq, S3, ZERO, "f2i_of_max"@),
        Asm::Li(A0, i32::MIN as int),
        ret_asm(),
        Asm::Label("f2i_of_max"@),
        Asm::Li(A0, i32::MAX as int),
        ret_asm(),
    ]
}

/// A magnitude with a fraction to drop.
pub open spec fn f2i_small_asm() -> Seq<Asm> {
    seq![
        Asm::Label("f2i_eneg"@),
        Asm::Alu(AluOp::Sub, S9, ZERO, S7),
        Asm::Li(A2, 32),
        Asm::Branch(BCond::Ge, S9, A2, "f2i_shr_zero"@),
        mv_asm(S8, S5),
        Asm::Label("f2i_shr_loop"@),
        Asm::Branch(BCond::Eq, S9, ZERO, "f2i_shr_done"@),
        Asm::Shift(ShiftOp::Srli, S8, S8, 1),
        addi_asm(S9, S9, -1),
        Asm::Jal(ZERO, "f2i_shr_loop"@),
        Asm::Label("f2i_shr_done"@),
        Asm::Jal(ZERO, "f2i_have_mag"@),
        Asm::Label("f2i_shr_zero"@),
        mv_asm(S8, ZERO),
        Asm::Label("f2i_have_mag"@),
    ]
}

/// The signed integer.
pub open spec fn f2i_returns_asm() -> Seq<Asm> {
    seq![
        Asm::Branch(BCond::Eq, S3, ZERO, "f2i_pos_signed"@),
        Asm::Alu(AluOp::Sub, S8, ZERO, S8),
        Asm::Label("f2i_pos_signed"@),
        mv_asm(A0, S8),
        ret_asm(),
        Asm::Label("f2i_ret_zero"@),
        Asm::Li(A0, 0),
        ret_asm(),
    ]
}

/// `__sf_f32_to_i32`: `a0` = the signed integer part of `a0`.
pub open spec fn f32_to_i32_asm() -> Seq<Asm> {
    f2i_entry_asm() + f2i_large_asm() + f2i_small_asm() + f2i_returns_asm()
}

/// Keeps the operand.
pub open spec fn f2u_start_asm() -> Seq<Asm> {
    seq![
        Asm::Label("__sf_f32_to_u32"@),
        mv_asm(T0, A0),
    ]
}

/// A NaN returns at once.
pub open spec fn f2u_nan_asm() -> Seq<Asm> {
    seq![
        Asm::Branch(BCond::Ne, S2, ZERO, "f2u_ret_zero"@),
    ]
}

/// A negative value returns at once.
pub open spec fn f2u_sign_asm() -> Seq<Asm> {
    seq![
        Asm::Branch(BCond::Eq, S3, ZERO, "f2u_sign_ok"@),
        Asm::Imm(ImmOp::Sltiu, A2, S4, 1),
        Asm::Imm(ImmOp::Sltiu, A3, S5, 1),
        Asm::Alu(AluOp::And, A2, A2, A3),
        Asm::Branch(BCond::Ne, A2, ZERO, "f2u_sign_ok"@),
        Asm::Li(A0, 0),
        ret_asm(),
        Asm::Label("f2u_sign_ok"@),
    ]
}

/// Infinity or a zero returns at once; the exponent of the last bit.
pub open spec fn f2u_inf_asm() -> Seq<Asm> {
    seq![
        Asm::Branch(BCond::Eq, S6, ZERO, "f2u_not_inf"@),
        Asm::Li(A0, -1),
        ret_asm(),
        Asm::Label("f2u_not_inf"@),
        Asm::Branch(BCond::Eq, S4, ZERO, "f2u_ret_zero"@),
        mv_asm(S7, S4),
        addi_asm(S7, S7, -127),
        addi_asm(S7, S7, -23),
    ]
}

/// NaN, negative values, infinity and zeros return at once.
pub open spec fn f2u_entry_asm() -> Seq<Asm> {
    f2u_start_asm() + is_nan_asm(T0, S2, A2, A3) + f2u_nan_asm() + decompose_asm(
        "f2u_d"@,
        T0,
        S3,
        S4,
        S5,
        A2,
    ) + f2u_sign_asm() + is_inf_asm(T0, S6, A2, A3) + f2u_inf_asm()
}

/// A value that is an integer, or too large.
pub open spec fn f2u_large_asm() -> Seq<Asm> {
    seq![
        Asm::Branch(BCond::Lt, S7, ZERO, "f2u_eneg"@),
        Asm::Li(A2, 9),
        Asm::Branch(BCond::Ge, S7, A2, "f2u_overflow"@),
        mv_asm(S8, S5),
        mv_asm(S9, S7),
        Asm::Label("f2u_shl_loop"@),
        Asm::Branch(BCond::Eq, S9, ZERO, "f2u_shl_done"@),
        Asm::Shift(ShiftOp::Slli, S8, S8, 1),
        addi_asm(S9, S9, -1),
        Asm::Jal(ZERO, "f2u_shl_loop"@),
        Asm::Label("f2u_shl_done"@),
        mv_asm(A0, S8),
        ret_asm(),
        Asm::Label("f2u_overflow"@),
        Asm::Li(A0, -1),
        ret_asm(),
    ]
}

/// A value with a fraction to drop.
pub open spec fn f2u_small_asm() -> Seq<Asm> {
    seq![
        Asm::Label("f2u_eneg"@),
        Asm::Alu(AluOp::Sub, S9, ZERO, S7),
        Asm::Li(A2, 32),
        Asm::Branch(BCond::Ge, S9, A2, "f2u_shr_zero"@),
        mv_asm(S8, S5),
        Asm::Label("f2u_shr_loop"@),
        Asm::Branch(BCond::Eq, S9, ZERO, "f2u_shr_done"@),
        Asm::Shift(ShiftOp::Srli, S8, S8, 1),
        addi_asm(S9, S9, -1),
        Asm::Jal(ZERO, "f2u_shr_loop"@),
        Asm::Label("f2u_shr_done"@),
        mv_asm(A0, S8),
        ret_asm(),
        Asm::Label("f2u_shr_zero"@),
        Asm::Li(A0, 0),
        ret_asm(),
        Asm::Label("f2u_ret_zero"@),
        Asm::Li(A0, 0),
        ret_asm(),
    ]
}

/// `__sf_f32_to_u32`: `a0` = the unsigned integer part of `a0`.
pub open spec fn f32_to_u32_asm() -> Seq<Asm> {
    f2u_entry_asm() + f2u_large_asm() + f2u_small_asm()
}

/// The whole runtime.
#[verifier::opaque]
pub open spec fn runtime_asm() -> Seq<Asm> {
    f32_add_asm() + f32_mul_asm() + f32_div_asm() + f32_cmp_asm() + i32_to_f32_asm()
        + u32_to_f32_asm() + f32_to_i32_asm() + f32_to_u32_asm()
}

proof fn lemma_entry_names()
    ensures
        "__sf_f32_add"@[0] == '_',
        "__sf_f32_mul"@[0] == '_',
        "__sf_f32_div"@[0] == '_',
        "__sf_f32_cmp"@[0] == '_',
        "__sf_i32_to_f32"@[0] == '_',
        "__sf_u32_to_f32"@[0] == '_',
        "__sf_f32_to_i32"@[0] == '_',
        "__sf_f32_to_u32"@[0] == '_',
        "__sf_f32_add"@ != "__sf_f32_mul"@,
        "__sf_f32_add"@ != "__sf_f32_div"@,
        "__sf_f32_add"@ != "__sf_f32_cmp"@,
        "__sf_f32_add"@ != "__sf_i32_to_f32"@,
        "__sf_f32_add"@ != "__sf_u32_to_f32"@,
        "__sf_f32_add"@ != "__sf_f32_to_i32"@,
        "__sf_f32_add"@ != "__sf_f32_to_u32"@,
        "__sf_f32_mul"@ != "__sf_f32_div"@,
        "__sf_f32_mul"@ != "__sf_f32_cmp"@,
        "__sf_f32_mul"@ != "__sf_i32_to_f32"@,
        "__sf_f32_mul"@ != "__sf_u32_to_f32"@,
        "__sf_f32_mul"@ != "__sf_f32_to_i32"@,
        "__sf_f32_mul"@ != "__sf_f32_to_u32"@,
        "__sf_f32_div"@ != "__sf_f32_cmp"@,
        "__sf_f32_div"@ != "__sf_i32_to_f32"@,
        "__sf_f32_div"@ != "__sf_u32_to_f32"@,
        "__sf_f32_div"@ != "__sf_f32_to_i32"@,
        "__sf_f32_div"@ != "__sf_f32_to_u32"@,
        "__sf_f32_cmp"@ != "__sf_i32_to_f32"@,
        "__sf_f32_cmp"@ != "__sf_u32_to_f32"@,
        "__sf_f32_cmp"@ != "__sf_f32_to_i32"@,
        "__sf_f32_cmp"@ != "__sf_f32_to_u32"@,
        "__sf_i32_to_f32"@ != "__sf_u32_to_f32"@,
        "__sf_i32_to_f32"@ != "__sf_f32_to_i32"@,
        "__sf_i32_to_f32"@ != "__sf_f32_to_u32"@,
        "__sf_u32_to_f32"@ != "__sf_f32_to_i32"@,
        "__sf_u32_to_f32"@ != "__sf_f32_to_u32"@,
        "__sf_f32_to_i32"@ != "__sf_f32_to_u32"@,
{
    reveal_strlit("__sf_f32_add");
    reveal_strlit("__sf_f32_mul");
    reveal_strlit("__sf_f32_div");
    reveal_strlit("__sf_f32_cmp");
    reveal_strlit("__sf_i32_to_f32");
    reveal_strlit("__sf_u32_to_f32");
    reveal_strlit("__sf_f32_to_i32");
    reveal_strlit("__sf_f32_to_u32");
    assert(label_key("__sf_f32_add"@) == 27595380463564 && "__sf_f32_add"@[5] == 'f'
        && "__sf_f32_add"@[9] == 'a' && "__sf_f32_add"@[10] == 'd' && "__sf_f32_add"@[9] == 'a');
    assert(label_key("__sf_f32_mul"@) == 32276894816204 && "__sf_f32_mul"@[5] == 'f'
        && "__sf_f32_mul"@[9] == 'm' && "__sf_f32_mul"@[10] == 'u' && "__sf_f32_mul"@[9] == 'm');
    assert(label_key("__sf_f32_div"@) == 28989097351116 && "__sf_f32_div"@[5] == 'f'
        && "__sf_f32_div"@[9] == 'd' && "__sf_f32_div"@[10] == 'i' && "__sf_f32_div"@[9] == 'd');
    assert(label_key("__sf_f32_cmp"@) == 30082166527948 && "__sf_f32_cmp"@[5] == 'f'
        && "__sf_f32_cmp"@[9] == 'c' && "__sf_f32_cmp"@[10] == 'm' && "__sf_f32_cmp"@[9] == 'c');
    assert(label_key("__sf_i32_to_f32"@) == 14072675981263 && "__sf_i32_to_f32"@[5] == 'i'
        && "__sf_i32_to_f32"@[9] == 't' && "__sf_i32_to_f32"@[10] == 'o'
        && "__sf_i32_to_f32"@[12] == 'f');
    assert(label_key("__sf_u32_to_f32"@) == 14072676177871 && "__sf_u32_to_f32"@[5] == 'u'
        && "__sf_u32_to_f32"@[9] == 't' && "__sf_u32_to_f32"@[10] == 'o'
        && "__sf_u32_to_f32"@[12] == 'f');
    assert(label_key("__sf_f32_to_i32"@) == 14072675932111 && "__sf_f32_to_i32"@[5] == 'f'
        && "__sf_f32_to_i32"@[9] == 't' && "__sf_f32_to_i32"@[10] == 'o'
        && "__sf_f32_to_i32"@[12] == 'i');
    assert(label_key("__sf_f32_to_u32"@) == 14072675932111 && "__sf_f32_to_u32"@[5] == 'f'
        && "__sf_f32_to_u32"@[9] == 't' && "__sf_f32_to_u32"@[10] == 'o'
        && "__sf_f32_to_u32"@[12] == 'u');
}

// ---- emission ------------------------------------------------------------------------------

/// Writes the test for a NaN; `out` may not be `bits`.
fn is_nan_raw(e: &mut Enc, bits: u8, out: u8, t0: u8, t1: u8)
    requires
        old(e).wf(),
    ensures
        final(e).wf(),
        final(e)@ == old(e)@ + is_nan_asm(bits, out, t0, t1),
        forall|n: Seq<char>| #[trigger] defines(final(e)@, n) <==> defines(old(e)@, n),
        forall|n: Seq<char>| #[trigger] jumps(final(e)@, n) ==> jumps(old(e)@, n),
{
    broadcast use {lemma_defines_push, lemma_jumps_push};

    e.srli(t0, bits, 23);
    e.andi(t0, t0, 0xFF);
    e.slli(t1, bits, 9);
    e.srli(t1, t1, 9);
    e.xori(t0, t0, 0xFF);
    e.sltiu(t0, t0, 1);
    e.alu_reg(AluOp::Sltu, t1, ZERO, t1);
    e.alu_reg(AluOp::And, out, t0, t1);
    assert(e@ == old(e)@ + is_nan_asm(bits, out, t0, t1)) by {
        broadcast use group_text;

    }
}

/// Writes the test for an infinity.
fn is_inf_raw(e: &mut Enc, bits: u8, out: u8, t0: u8, t1: u8)
    requires
        old(e).wf(),
    ensures
        final(e).wf(),
        final(e)@ == old(e)@ + is_inf_asm(bits, out, t0, t1),
        forall|n: Seq<char>| #[trigger] defines(final(e)@, n) <==> defines(old(e)@, n),
        forall|n: Seq<char>| #[trigger] jumps(final(e)@, n) ==> jumps(old(e)@, n),
{
    broadcast use {lemma_defines_push, lemma_jumps_push};

    e.srli(t0, bits, 23);
    e.andi(t0, t0, 0xFF);
    e.slli(t1, bits, 9);
    e.srli(t1, t1, 9);
    e.xori(t0, t0, 0xFF);
    e.sltiu(t0, t0, 1);
    e.sltiu(t1, t1, 1);
    e.alu_reg(AluOp::And, out, t0, t1);
    assert(e@ == old(e)@ + is_inf_asm(bits, out, t0, t1)) by {
        broadcast use group_text;

    }
}

/// Writes the split of a pattern into its fields.
fn decompose_raw(e: &mut Enc, tag: &str, bits: u8, sign: u8, exp: u8, mant: u8, t0: u8)
    requires
        old(e).wf(),
        !defines(old(e)@, tag@ + "_dz"@),
        !defines(old(e)@, tag@ + "_dj"@),
    ensures
        final(e).wf(),
        final(e)@ == old(e)@ + decompose_asm(tag@, bits, sign, exp, mant, t0),
        forall|n: Seq<char>| #[trigger] defines(final(e)@, n) <==> (defines(
            old(e)@,
            n,
        ) || n == tag@ + "_dz"@ || n == tag@ + "_dj"@),
        forall|n: Seq<char>| #[trigger] jumps(
            final(e)@,
            n,
        ) ==> jumps(old(e)@, n) || n == tag@ + "_dz"@ || n == tag@ + "_dj"@,
{
    broadcast use {lemma_defines_push, lemma_jumps_push};
    let zero_lbl = tag.to_owned().concat("_dz");
    let join_lbl = tag.to_owned().concat("_dj");
    proof {
        reveal_strlit("_dz");
        reveal_strlit("_dj");
        assert(zero_lbl@.last() == 'z' && join_lbl@.last() == 'j');
    }

    e.srli(exp, bits, 23);
    e.andi(exp, exp, 0xFF);
    e.slli(mant, bits, 9);
    e.srli(mant, mant, 9);
    e.srli(sign, bits, 31);
    e.branch(BCond::Eq, exp, ZERO, zero_lbl.as_str());
    e.li32(t0, 0x0080_0000);
    e.alu_reg(AluOp::Or, mant, mant, t0);
    e.jump(join_lbl.as_str());
    e.label(zero_lbl.as_str());
    e.mv(mant, ZERO);
    e.label(join_lbl.as_str());
    assert(e@ == old(e)@ + decompose_asm(tag@, bits, sign, exp, mant, t0)) by {
        broadcast use group_text;

    }
}

/// Writes the shift of a pair left by one bit.
fn shl64_1(e: &mut Enc, lo: u8, hi: u8, t0: u8)
    requires
        old(e).wf(),
    ensures
        final(e).wf(),
        final(e)@ == old(e)@ + shl64_asm(lo, hi, t0),
        forall|n: Seq<char>| #[trigger] defines(final(e)@, n) <==> defines(old(e)@, n),
        forall|n: Seq<char>| #[trigger] jumps(final(e)@, n) ==> jumps(old(e)@, n),
{
    broadcast use {lemma_defines_push, lemma_jumps_push};

    e.srli(t0, lo, 31);
    e.slli(hi, hi, 1);
    e.alu_reg(AluOp::Or, hi, hi, t0);
    e.slli(lo, lo, 1);
    assert(e@ == old(e)@ + shl64_asm(lo, hi, t0)) by {
        broadcast use group_text;

    }
}

/// Writes the shift of a pair right by one bit.
fn shr64_1(e: &mut Enc, lo: u8, hi: u8, t0: u8, t1: u8)
    requires
        old(e).wf(),
    ensures
        final(e).wf(),
        final(e)@ == old(e)@ + shr64_asm(lo, hi, t0, t1),
        forall|n: Seq<char>| #[trigger] defines(final(e)@, n) <==> defines(old(e)@, n),
        forall|n: Seq<char>| #[trigger] jumps(final(e)@, n) ==> jumps(old(e)@, n),
{
    broadcast use {lemma_defines_push, lemma_jumps_push};

    e.andi(t0, hi, 1);
    e.srli(lo, lo, 1);
    e.slli(t1, t0, 31);
    e.alu_reg(AluOp::Or, lo, lo, t1);
    e.srli(hi, hi, 1);
    assert(e@ == old(e)@ + shr64_asm(lo, hi, t0, t1)) by {
        broadcast use group_text;

    }
}

/// Shifts the pair left until bit 23 or a higher one is set.
fn norm_left(e: &mut Enc, tag: &str, mlo: u8, mhi: u8, exp2: u8, ta: u8, tc: u8)
    requires
        old(e).wf(),
        !defines(old(e)@, tag@ + "_npl"@),
        !defines(old(e)@, tag@ + "_nple"@),
    ensures
        final(e).wf(),
        final(e)@ == old(e)@ + norm_left_asm(tag@, mlo, mhi, exp2, ta, tc),
        forall|n: Seq<char>| #[trigger] defines(final(e)@, n) <==> (defines(
            old(e)@,
            n,
        ) || n == tag@ + "_npl"@ || n == tag@ + "_nple"@),
        forall|n: Seq<char>| #[trigger] jumps(
            final(e)@,
            n,
        ) ==> jumps(old(e)@, n) || n == tag@ + "_npl"@ || n == tag@ + "_nple"@,
{
    broadcast use {lemma_defines_push, lemma_jumps_push};
    let left_top = tag.to_owned().concat("_npl");
    let left_exit = tag.to_owned().concat("_nple");
    proof {
        reveal_strlit("_npl");
        reveal_strlit("_nple");
        assert(left_top@.last() == 'l' && left_top@[left_top@.len() - 2] == 'p'
            && left_top@[left_top@.len() - 3] == 'n');
        assert(left_exit@.last() == 'e' && left_exit@[left_exit@.len() - 2] == 'l'
            && left_exit@[left_exit@.len() - 3] == 'p');
    }

    e.li32(tc, 0x0080_0000);
    e.label(left_top.as_str());
    e.branch(BCond::Ne, mhi, ZERO, left_exit.as_str());
    e.branch(BCond::Geu, mlo, tc, left_exit.as_str());
    shl64_1(e, mlo, mhi, ta);
    e.addi(exp2, exp2, -1);
    e.jump(left_top.as_str());
    e.label(left_exit.as_str());
    assert(e@ == old(e)@ + norm_left_asm(tag@, mlo, mhi, exp2, ta, tc)) by {
        broadcast use group_text;

    }
}

/// Shifts the pair right until bit 23 is the highest one set.
fn norm_right(e: &mut Enc, tag: &str, mlo: u8, mhi: u8, exp2: u8, ta: u8, tb: u8, tc: u8)
    requires
        old(e).wf(),
        !defines(old(e)@, tag@ + "_npr"@),
        !defines(old(e)@, tag@ + "_nprs"@),
        !defines(old(e)@, tag@ + "_npre"@),
    ensures
        final(e).wf(),
        final(e)@ == old(e)@ + norm_right_asm(tag@, mlo, mhi, exp2, ta, tb, tc),
        forall|n: Seq<char>| #[trigger] defines(final(e)@, n) <==> (defines(
            old(e)@,
            n,
        ) || n == tag@ + "_npr"@ || n == tag@ + "_nprs"@ || n == tag@ + "_npre"@),
        forall|n: Seq<char>| #[trigger] jumps(
            final(e)@,
            n,
        ) ==> jumps(old(e)@, n) || n == tag@ + "_npr"@ || n == tag@ + "_nprs"@ || n == tag@ + "_npre"@,
{
    broadcast use {lemma_defines_push, lemma_jumps_push};
    let right_top = tag.to_owned().concat("_npr");
    let right_shift = tag.to_owned().concat("_nprs");
    let right_exit = tag.to_owned().concat("_npre");
    proof {
        reveal_strlit("_npr");
        reveal_strlit("_nprs");
        reveal_strlit("_npre");
        assert(right_top@.last() == 'r' && right_top@[right_top@.len() - 2] == 'p'
            && right_top@[right_top@.len() - 3] == 'n');
        assert(right_shift@.last() == 's' && right_shift@[right_shift@.len() - 2] == 'r'
            && right_shift@[right_shift@.len() - 3] == 'p');
        assert(right_exit@.last() == 'e' && right_exit@[right_exit@.len() - 2] == 'r'
            && right_exit@[right_exit@.len() - 3] == 'p');
    }

    e.li32(tc, 0x0100_0000);
    e.label(right_top.as_str());
    e.branch(BCond::Ne, mhi, ZERO, right_shift.as_str());
    e.branch(BCond::Geu, mlo, tc, right_shift.as_str());
    e.jump(right_exit.as_str());
    e.label(right_shift.as_str());
    shr64_1(e, mlo, mhi, ta, tb);
    e.addi(exp2, exp2, 1);
    e.jump(right_top.as_str());
    e.label(right_exit.as_str());
    assert(e@ == old(e)@ + norm_right_asm(tag@, mlo, mhi, exp2, ta, tb, tc)) by {
        broadcast use group_text;

    }
}

/// The pattern of a 24-bit significand at an exponent.
fn norm_pack(
    e: &mut Enc,
    tag: &str,
    sign: u8,
    mlo: u8,
    exp2: u8,
    out: u8,
    ta: u8,
    tb: u8,
    tc: u8,
    td: u8,
)
    requires
        old(e).wf(),
        !defines(old(e)@, tag@ + "_npu"@),
        !defines(old(e)@, tag@ + "_npo"@),
        !defines(old(e)@, tag@ + "_npd"@),
    ensures
        final(e).wf(),
        final(e)@ == old(e)@ + norm_pack_asm(tag@, sign, mlo, exp2, out, ta, tb, tc, td),
        forall|n: Seq<char>| #[trigger] defines(final(e)@, n) <==> (defines(
            old(e)@,
            n,
        ) || n == tag@ + "_npu"@ || n == tag@ + "_npo"@ || n == tag@ + "_npd"@),
        forall|n: Seq<char>| #[trigger] jumps(
            final(e)@,
            n,
        ) ==> jumps(old(e)@, n) || n == tag@ + "_npu"@ || n == tag@ + "_npo"@ || n == tag@ + "_npd"@,
{
    broadcast use {lemma_defines_push, lemma_jumps_push};
    let underflow = tag.to_owned().concat("_npu");
    let overflow = tag.to_owned().concat("_npo");
    let done = tag.to_owned().concat("_npd");
    proof {
        reveal_strlit("_npu");
        reveal_strlit("_npo");
        reveal_strlit("_npd");
        assert(underflow@.last() == 'u' && underflow@[underflow@.len() - 2] == 'p'
            && underflow@[underflow@.len() - 3] == 'n');
        assert(overflow@.last() == 'o' && overflow@[overflow@.len() - 2] == 'p'
            && overflow@[overflow@.len() - 3] == 'n');
        assert(done@.last() == 'd' && done@[done@.len() - 2] == 'p'
            && done@[done@.len() - 3] == 'n');
    }

    e.addi(exp2, exp2, 127);
    e.li32(tc, 1);
    e.branch(BCond::Lt, exp2, tc, underflow.as_str());
    e.li32(tc, 0xFF);
    e.branch(BCond::Ge, exp2, tc, overflow.as_str());
    e.slli(ta, sign, 31);
    e.slli(tb, exp2, 23);
    e.alu_reg(AluOp::Or, ta, ta, tb);
    e.li32(tc, 0x0080_0000);
    e.alu_reg(AluOp::Xor, td, mlo, tc);
    e.alu_reg(AluOp::Or, out, ta, td);
    e.jump(done.as_str());
    e.label(underflow.as_str());
    e.slli(out, sign, 31);
    e.jump(done.as_str());
    e.label(overflow.as_str());
    e.li32(tc, 0x7F80_0000);
    e.slli(ta, sign, 31);
    e.alu_reg(AluOp::Or, out, ta, tc);
    e.label(done.as_str());
    assert(e@ == old(e)@ + norm_pack_asm(tag@, sign, mlo, exp2, out, ta, tb, tc, td)) by {
        broadcast use group_text;

    }
}

/// Writes the rounding of a positive pair. The pair and the exponent are changed on the way.
fn norm_and_pack64(
    e: &mut Enc,
    tag: &str,
    sign: u8,
    mlo: u8,
    mhi: u8,
    exp2: u8,
    out: u8,
    ta: u8,
    tb: u8,
    tc: u8,
    td: u8,
)
    requires
        old(e).wf(),
        !defines(old(e)@, tag@ + "_npl"@),
        !defines(old(e)@, tag@ + "_nple"@),
        !defines(old(e)@, tag@ + "_npr"@),
        !defines(old(e)@, tag@ + "_nprs"@),
        !defines(old(e)@, tag@ + "_npre"@),
        !defines(old(e)@, tag@ + "_npu"@),
        !defines(old(e)@, tag@ + "_npo"@),
        !defines(old(e)@, tag@ + "_npd"@),
    ensures
        final(e).wf(),
        final(e)@ == old(e)@ + norm_asm(tag@, sign, mlo, mhi, exp2, out, ta, tb, tc, td),
        forall|n: Seq<char>| #[trigger] defines(final(e)@, n) <==> (defines(
            old(e)@,
            n,
        ) || n == tag@ + "_npl"@ || n == tag@ + "_nple"@ || n == tag@ + "_npr"@
            || n == tag@ + "_nprs"@ || n == tag@ + "_npre"@ || n == tag@ + "_npu"@
            || n == tag@ + "_npo"@ || n == tag@ + "_npd"@),
        forall|n: Seq<char>| #[trigger] jumps(
            final(e)@,
            n,
        ) ==> jumps(old(e)@, n) || n == tag@ + "_npl"@ || n == tag@ + "_nple"@
            || n == tag@ + "_npr"@ || n == tag@ + "_nprs"@ || n == tag@ + "_npre"@
            || n == tag@ + "_npu"@ || n == tag@ + "_npo"@ || n == tag@ + "_npd"@,
{
    broadcast use {lemma_defines_push, lemma_jumps_push};
    proof {
        reveal_strlit("_npl");
        reveal_strlit("_nple");
        reveal_strlit("_npr");
        reveal_strlit("_nprs");
        reveal_strlit("_npre");
        reveal_strlit("_npu");
        reveal_strlit("_npo");
        reveal_strlit("_npd");
        assert((tag@ + "_npl"@).last() == 'l'
            && (tag@ + "_npl"@)[(tag@ + "_npl"@).len() - 2] == 'p'
            && (tag@ + "_npl"@)[(tag@ + "_npl"@).len() - 3] == 'n'
            && (tag@ + "_npl"@).len() == tag@.len() + 4);
        assert((tag@ + "_nple"@).last() == 'e'
            && (tag@ + "_nple"@)[(tag@ + "_nple"@).len() - 2] == 'l'
            && (tag@ + "_nple"@)[(tag@ + "_nple"@).len() - 3] == 'p'
            && (tag@ + "_nple"@).len() == tag@.len() + 5);
        assert((tag@ + "_npr"@).last() == 'r'
            && (tag@ + "_npr"@)[(tag@ + "_npr"@).len() - 2] == 'p'
            && (tag@ + "_npr"@)[(tag@ + "_npr"@).len() - 3] == 'n'
            && (tag@ + "_npr"@).len() == tag@.len() + 4);
        assert((tag@ + "_nprs"@).last() == 's'
            && (tag@ + "_nprs"@)[(tag@ + "_nprs"@).len() - 2] == 'r'
            && (tag@ + "_nprs"@)[(tag@ + "_nprs"@).len() - 3] == 'p'
            && (tag@ + "_nprs"@).len() == tag@.len() + 5);
        assert((tag@ + "_npre"@).last() == 'e'
            && (tag@ + "_npre"@)[(tag@ + "_npre"@).len() - 2] == 'r'
            && (tag@ + "_npre"@)[(tag@ + "_npre"@).len() - 3] == 'p'
            && (tag@ + "_npre"@).len() == tag@.len() + 5);
        assert((tag@ + "_npu"@).last() == 'u'
            && (tag@ + "_npu"@)[(tag@ + "_npu"@).len() - 2] == 'p'
            && (tag@ + "_npu"@)[(tag@ + "_npu"@).len() - 3] == 'n'
            && (tag@ + "_npu"@).len() == tag@.len() + 4);
        assert((tag@ + "_npo"@).last() == 'o'
            && (tag@ + "_npo"@)[(tag@ + "_npo"@).len() - 2] == 'p'
            && (tag@ + "_npo"@)[(tag@ + "_npo"@).len() - 3] == 'n'
            && (tag@ + "_npo"@).len() == tag@.len() + 4);
        assert((tag@ + "_npd"@).last() == 'd'
            && (tag@ + "_npd"@)[(tag@ + "_npd"@).len() - 2] == 'p'
            && (tag@ + "_npd"@)[(tag@ + "_npd"@).len() - 3] == 'n'
            && (tag@ + "_npd"@).len() == tag@.len() + 4);
    }

    norm_left(e, tag, mlo, mhi, exp2, ta, tc);
    norm_right(e, tag, mlo, mhi, exp2, ta, tb, tc);
    norm_pack(e, tag, sign, mlo, exp2, out, ta, tb, tc, td);
    assert(e@ == old(e)@ + norm_asm(tag@, sign, mlo, mhi, exp2, out, ta, tb, tc, td)) by {
        broadcast use group_text;

    }
}

/// Splits both operands; a NaN returns at once.
fn add_entry(e: &mut Enc)
    requires
        old(e).wf(),
        !defines(old(e)@, "__sf_f32_add"@),
        !defines(old(e)@, "add_da"@ + "_dz"@),
        !defines(old(e)@, "add_da"@ + "_dj"@),
        !defines(old(e)@, "add_db"@ + "_dz"@),
        !defines(old(e)@, "add_db"@ + "_dj"@),
    ensures
        final(e).wf(),
        final(e)@ == old(e)@ + add_entry_asm(),
        forall|n: Seq<char>| #[trigger]
            defines(final(e)@, n) <==> (defines(
                old(e)@,
                n,
            ) || n == "__sf_f32_add"@ || n == "add_da"@ + "_dz"@ || n == "add_da"@ + "_dj"@
                || n == "add_db"@ + "_dz"@ || n == "add_db"@ + "_dj"@),
        forall|n: Seq<char>| #[trigger] jumps(
            final(e)@,
            n,
        ) ==> jumps(old(e)@, n) || n == "add_ret_nan"@ || n == "add_da"@ + "_dz"@
            || n == "add_da"@ + "_dj"@ || n == "add_db"@ + "_dz"@ || n == "add_db"@ + "_dj"@,
{
    broadcast use {lemma_defines_push, lemma_jumps_push};

    proof {
        lemma_add_labels();
    }
    e.label("__sf_f32_add");
    e.mv(T0, A0);
    e.mv(T1, A1);
    is_nan_raw(e, T0, S2, A2, A3);
    e.branch(BCond::Ne, S2, ZERO, "add_ret_nan");
    is_nan_raw(e, T1, S3, A2, A3);
    e.branch(BCond::Ne, S3, ZERO, "add_ret_nan");
    decompose_raw(e, "add_da", T0, S4, S5, S6, A2);
    decompose_raw(e, "add_db", T1, S7, S8, S9, A2);
    is_inf_raw(e, T0, A4, A2, A3);
    is_inf_raw(e, T1, A5, A2, A3);
    assert(e@ == old(e)@ + add_entry_asm()) by {
        broadcast use group_text;

    }
}

/// Infinities and zeros.
fn add_special(e: &mut Enc)
    requires
        old(e).wf(),
        !defines(old(e)@, "add_skip_ii"@),
        !defines(old(e)@, "add_skip_zz"@),
    ensures
        final(e).wf(),
        final(e)@ == old(e)@ + add_special_asm(),
        forall|n: Seq<char>| #[trigger]
            defines(final(e)@, n) <==> (defines(
                old(e)@,
                n,
            ) || n == "add_skip_ii"@ || n == "add_skip_zz"@),
        forall|n: Seq<char>| #[trigger] jumps(
            final(e)@,
            n,
        ) ==> jumps(old(e)@, n) || n == "add_skip_ii"@ || n == "add_ret_nan"@ || n == "add_ret_a"@
            || n == "add_ret_b"@ || n == "add_skip_zz"@ || n == "add_ret_zero"@,
{
    broadcast use {lemma_defines_push, lemma_jumps_push};

    proof {
        lemma_add_labels();
    }
    e.branch(BCond::Eq, A4, ZERO, "add_skip_ii");
    e.branch(BCond::Eq, A5, ZERO, "add_skip_ii");
    e.branch(BCond::Ne, S4, S7, "add_ret_nan");
    e.jump("add_ret_a");
    e.label("add_skip_ii");
    e.branch(BCond::Ne, A4, ZERO, "add_ret_a");
    e.branch(BCond::Ne, A5, ZERO, "add_ret_b");
    e.sltiu(A2, S5, 1);
    e.sltiu(A3, S6, 1);
    e.alu_reg(AluOp::And, A6, A2, A3);
    e.sltiu(A2, S8, 1);
    e.sltiu(A3, S9, 1);
    e.alu_reg(AluOp::And, A7, A2, A3);
    e.branch(BCond::Eq, A6, ZERO, "add_skip_zz");
    e.branch(BCond::Eq, A7, ZERO, "add_skip_zz");
    e.branch(BCond::Ne, S4, S7, "add_ret_zero");
    e.slli(A0, S4, 31);
    e.ret();
    e.label("add_skip_zz");
    e.branch(BCond::Ne, A6, ZERO, "add_ret_b");
    e.branch(BCond::Ne, A7, ZERO, "add_ret_a");
    assert(e@ == old(e)@ + add_special_asm()) by {
        broadcast use group_text;

    }
}

/// Names the operand of larger magnitude the big one.
fn add_pick(e: &mut Enc)
    requires
        old(e).wf(),
        !defines(old(e)@, "add_pick_b"@),
        !defines(old(e)@, "add_pick_a"@),
        !defines(old(e)@, "add_picked"@),
    ensures
        final(e).wf(),
        final(e)@ == old(e)@ + add_pick_asm(),
        forall|n: Seq<char>| #[trigger]
            defines(final(e)@, n) <==> (defines(
                old(e)@,
                n,
            ) || n == "add_pick_b"@ || n == "add_pick_a"@ || n == "add_picked"@),
        forall|n: Seq<char>| #[trigger] jumps(
            final(e)@,
            n,
        ) ==> jumps(old(e)@, n) || n == "add_pick_a"@ || n == "add_pick_b"@ || n == "add_picked"@,
{
    broadcast use {lemma_defines_push, lemma_jumps_push};

    proof {
        lemma_add_labels();
    }
    e.alu_reg(AluOp::Sltu, A2, S8, S5);
    e.branch(BCond::Ne, A2, ZERO, "add_pick_a");
    e.branch(BCond::Ne, S5, S8, "add_pick_b");
    e.alu_reg(AluOp::Sltu, A3, S6, S9);
    e.branch(BCond::Ne, A3, ZERO, "add_pick_b");
    e.jump("add_pick_a");
    e.label("add_pick_b");
    e.mv(S2, S7);
    e.mv(S3, S8);
    e.mv(A4, S9);
    e.mv(A5, S4);
    e.mv(A6, S5);
    e.mv(A7, S6);
    e.jump("add_picked");
    e.label("add_pick_a");
    e.mv(S2, S4);
    e.mv(S3, S5);
    e.mv(A4, S6);
    e.mv(A5, S7);
    e.mv(A6, S8);
    e.mv(A7, S9);
    e.label("add_picked");
    assert(e@ == old(e)@ + add_pick_asm()) by {
        broadcast use group_text;

    }
}

/// The small significand in a window of 24 extra bits, with a sticky bit.
fn add_align(e: &mut Enc)
    requires
        old(e).wf(),
        !defines(old(e)@, "add_k_diff"@),
        !defines(old(e)@, "add_k_done"@),
        !defines(old(e)@, "add_sw_far"@),
        !defines(old(e)@, "add_sw_loop"@),
        !defines(old(e)@, "add_sw_loop_done"@),
        !defines(old(e)@, "add_sw_sat"@),
        !defines(old(e)@, "add_sw_done"@),
    ensures
        final(e).wf(),
        final(e)@ == old(e)@ + add_align_asm(),
        forall|n: Seq<char>| #[trigger]
            defines(final(e)@, n) <==> (defines(
                old(e)@,
                n,
            ) || n == "add_k_diff"@ || n == "add_k_done"@ || n == "add_sw_far"@
                || n == "add_sw_loop"@ || n == "add_sw_loop_done"@ || n == "add_sw_sat"@
                || n == "add_sw_done"@),
        forall|n: Seq<char>| #[trigger] jumps(
            final(e)@,
            n,
        ) ==> jumps(old(e)@, n) || n == "add_k_diff"@ || n == "add_k_done"@ || n == "add_sw_far"@
            || n == "add_sw_done"@ || n == "add_sw_sat"@ || n == "add_sw_loop_done"@
            || n == "add_sw_loop"@,
{
    broadcast use {lemma_defines_push, lemma_jumps_push};

    proof {
        lemma_add_labels();
    }
    e.alu_reg(AluOp::Sub, S4, S3, A6);
    e.li32(T2, 24);
    e.branch(BCond::Lt, S4, T2, "add_k_diff");
    e.mv(S5, T2);
    e.jump("add_k_done");
    e.label("add_k_diff");
    e.mv(S5, S4);
    e.label("add_k_done");
    e.li32(T2, 24);
    e.branch(BCond::Lt, T2, S4, "add_sw_far");
    e.mv(S6, A7);
    e.jump("add_sw_done");
    e.label("add_sw_far");
    e.alu_reg(AluOp::Sub, S8, S4, T2);
    e.li32(T2, 24);
    e.branch(BCond::Ge, S8, T2, "add_sw_sat");
    e.mv(S6, A7);
    e.mv(S7, ZERO);
    e.label("add_sw_loop");
    e.branch(BCond::Eq, S8, ZERO, "add_sw_loop_done");
    e.andi(T2, S6, 1);
    e.alu_reg(AluOp::Or, S7, S7, T2);
    e.srli(S6, S6, 1);
    e.addi(S8, S8, -1);
    e.jump("add_sw_loop");
    e.label("add_sw_loop_done");
    e.alu_reg(AluOp::Or, S6, S6, S7);
    e.jump("add_sw_done");
    e.label("add_sw_sat");
    e.li32(S6, 1);
    e.label("add_sw_done");
    assert(e@ == old(e)@ + add_align_asm()) by {
        broadcast use group_text;

    }
}

/// The big significand in the same window.
fn add_widen(e: &mut Enc)
    requires
        old(e).wf(),
        !defines(old(e)@, "add_bw_loop"@),
        !defines(old(e)@, "add_bw_done"@),
    ensures
        final(e).wf(),
        final(e)@ == old(e)@ + add_widen_asm(),
        forall|n: Seq<char>| #[trigger]
            defines(final(e)@, n) <==> (defines(
                old(e)@,
                n,
            ) || n == "add_bw_loop"@ || n == "add_bw_done"@),
        forall|n: Seq<char>| #[trigger] jumps(
            final(e)@,
            n,
        ) ==> jumps(old(e)@, n) || n == "add_bw_done"@ || n == "add_bw_loop"@,
{
    broadcast use {lemma_defines_push, lemma_jumps_push};

    proof {
        lemma_add_labels();
    }
    e.mv(S9, ZERO);
    e.mv(S8, S5);
    e.label("add_bw_loop");
    e.branch(BCond::Eq, S8, ZERO, "add_bw_done");
    shl64_1(e, A4, S9, T2);
    e.addi(S8, S8, -1);
    e.jump("add_bw_loop");
    e.label("add_bw_done");
    e.mv(T3, S3);
    e.addi(T3, T3, -127);
    e.alu_reg(AluOp::Sub, T3, T3, S5);
    assert(e@ == old(e)@ + add_widen_asm()) by {
        broadcast use group_text;

    }
}

/// The sum of the magnitudes.
fn add_same_sign(e: &mut Enc)
    requires
        old(e).wf(),
        !defines(old(e)@, "add_sum"@ + "_npl"@),
        !defines(old(e)@, "add_sum"@ + "_nple"@),
        !defines(old(e)@, "add_sum"@ + "_npr"@),
        !defines(old(e)@, "add_sum"@ + "_nprs"@),
        !defines(old(e)@, "add_sum"@ + "_npre"@),
        !defines(old(e)@, "add_sum"@ + "_npu"@),
        !defines(old(e)@, "add_sum"@ + "_npo"@),
        !defines(old(e)@, "add_sum"@ + "_npd"@),
    ensures
        final(e).wf(),
        final(e)@ == old(e)@ + add_same_sign_asm(),
        forall|n: Seq<char>| #[trigger]
            defines(final(e)@, n) <==> (defines(
                old(e)@,
                n,
            ) || n == "add_sum"@ + "_npl"@ || n == "add_sum"@ + "_nple"@
                || n == "add_sum"@ + "_npr"@ || n == "add_sum"@ + "_nprs"@
                || n == "add_sum"@ + "_npre"@ || n == "add_sum"@ + "_npu"@
                || n == "add_sum"@ + "_npo"@ || n == "add_sum"@ + "_npd"@),
        forall|n: Seq<char>| #[trigger] jumps(
            final(e)@,
            n,
        ) ==> jumps(old(e)@, n) || n == "add_diffsign"@ || n == "add_sum"@ + "_npl"@
            || n == "add_sum"@ + "_nple"@ || n == "add_sum"@ + "_npr"@ || n == "add_sum"@ + "_nprs"@
            || n == "add_sum"@ + "_npre"@ || n == "add_sum"@ + "_npu"@ || n == "add_sum"@ + "_npo"@
            || n == "add_sum"@ + "_npd"@,
{
    broadcast use {lemma_defines_push, lemma_jumps_push};

    proof {
        lemma_add_labels();
    }
    e.branch(BCond::Ne, S2, A5, "add_diffsign");
    e.alu_reg(AluOp::Add, T4, A4, S6);
    e.alu_reg(AluOp::Sltu, T5, T4, A4);
    e.alu_reg(AluOp::Add, T6, S9, T5);
    norm_and_pack64(e, "add_sum", S2, T4, T6, T3, A0, A2, A3, T2, T5);
    e.ret();
    assert(e@ == old(e)@ + add_same_sign_asm()) by {
        broadcast use group_text;

    }
}

/// The difference of the magnitudes.
fn add_opposite_sign(e: &mut Enc)
    requires
        old(e).wf(),
        !defines(old(e)@, "add_diffsign"@),
        !defines(old(e)@, "add_diff_nz"@),
        !defines(old(e)@, "add_diff"@ + "_npl"@),
        !defines(old(e)@, "add_diff"@ + "_nple"@),
        !defines(old(e)@, "add_diff"@ + "_npr"@),
        !defines(old(e)@, "add_diff"@ + "_nprs"@),
        !defines(old(e)@, "add_diff"@ + "_npre"@),
        !defines(old(e)@, "add_diff"@ + "_npu"@),
        !defines(old(e)@, "add_diff"@ + "_npo"@),
        !defines(old(e)@, "add_diff"@ + "_npd"@),
    ensures
        final(e).wf(),
        final(e)@ == old(e)@ + add_opposite_sign_asm(),
        forall|n: Seq<char>| #[trigger]
            defines(final(e)@, n) <==> (defines(
                old(e)@,
                n,
            ) || n == "add_diffsign"@ || n == "add_diff_nz"@ || n == "add_diff"@ + "_npl"@
                || n == "add_diff"@ + "_nple"@ || n == "add_diff"@ + "_npr"@
                || n == "add_diff"@ + "_nprs"@ || n == "add_diff"@ + "_npre"@
                || n == "add_diff"@ + "_npu"@ || n == "add_diff"@ + "_npo"@
                || n == "add_diff"@ + "_npd"@),
        forall|n: Seq<char>| #[trigger] jumps(
            final(e)@,
            n,
        ) ==> jumps(old(e)@, n) || n == "add_diff_nz"@ || n == "add_diff"@ + "_npl"@
            || n == "add_diff"@ + "_nple"@ || n == "add_diff"@ + "_npr"@
            || n == "add_diff"@ + "_nprs"@ || n == "add_diff"@ + "_npre"@
            || n == "add_diff"@ + "_npu"@ || n == "add_diff"@ + "_npo"@
            || n == "add_diff"@ + "_npd"@,
{
    broadcast use {lemma_defines_push, lemma_jumps_push};

    proof {
        lemma_add_labels();
    }
    e.label("add_diffsign");
    e.alu_reg(AluOp::Sltu, T5, A4, S6);
    e.alu_reg(AluOp::Sub, T4, A4, S6);
    e.alu_reg(AluOp::Sub, T6, S9, T5);
    e.alu_reg(AluOp::Or, T2, T4, T6);
    e.branch(BCond::Ne, T2, ZERO, "add_diff_nz");
    e.li32(A0, 0);
    e.ret();
    e.label("add_diff_nz");
    norm_and_pack64(e, "add_diff", S2, T4, T6, T3, A0, A2, A3, T2, T5);
    e.ret();
    assert(e@ == old(e)@ + add_opposite_sign_asm()) by {
        broadcast use group_text;

    }
}

/// The results that need no arithmetic.
fn add_returns(e: &mut Enc)
    requires
        old(e).wf(),
        !defines(old(e)@, "add_ret_nan"@),
        !defines(old(e)@, "add_ret_a"@),
        !defines(old(e)@, "add_ret_b"@),
        !defines(old(e)@, "add_ret_zero"@),
    ensures
        final(e).wf(),
        final(e)@ == old(e)@ + add_returns_asm(),
        forall|n: Seq<char>| #[trigger]
            defines(final(e)@, n) <==> (defines(
                old(e)@,
                n,
            ) || n == "add_ret_nan"@ || n == "add_ret_a"@ || n == "add_ret_b"@ || n == "add_ret_zero"@),
        forall|n: Seq<char>| #[trigger] jumps(final(e)@, n) ==> jumps(old(e)@, n),
{
    broadcast use {lemma_defines_push, lemma_jumps_push};

    proof {
        lemma_add_labels();
    }
    e.label("add_ret_nan");
    e.li32(A0, 0x7fc0_0000);
    e.ret();
    e.label("add_ret_a");
    e.mv(A0, T0);
    e.ret();
    e.label("add_ret_b");
    e.mv(A0, T1);
    e.ret();
    e.label("add_ret_zero");
    e.li32(A0, 0);
    e.ret();
    assert(e@ == old(e)@ + add_returns_asm()) by {
        broadcast use group_text;

    }
}

/// Writes `__sf_f32_add`: `a0 = a0 + a1`.
fn emit_f32_add(e: &mut Enc)
    requires
        old(e).wf(),
        forall|n: Seq<char>| #[trigger]
            defines(old(e)@, n) ==> !prefixed(n, 'a', 'd', 'd') && n != "__sf_f32_add"@,
    ensures
        final(e).wf(),
        final(e)@ == old(e)@ + f32_add_asm(),
        forall|n: Seq<char>| #[trigger]
            defines(final(e)@, n) ==> defines(old(e)@, n) || prefixed(n, 'a', 'd', 'd') || n
                == "__sf_f32_add"@,
        forall|n: Seq<char>| #[trigger] defines(old(e)@, n) ==> defines(final(e)@, n),
        defines(final(e)@, "__sf_f32_add"@),
        forall|n: Seq<char>| #[trigger]
            jumps(final(e)@, n) ==> jumps(old(e)@, n) || defines(final(e)@, n),
{
    broadcast use lemma_defines_push;

    proof {
        lemma_add_labels();
    }
    add_entry(e);
    add_special(e);
    add_pick(e);
    add_align(e);
    add_widen(e);
    add_same_sign(e);
    add_opposite_sign(e);
    add_returns(e);
    assert(e@ == old(e)@ + f32_add_asm()) by {
        broadcast use group_text;

    }
}

/// Splits both operands; a NaN returns at once.
fn mul_entry(e: &mut Enc)
    requires
        old(e).wf(),
        !defines(old(e)@, "__sf_f32_mul"@),
        !defines(old(e)@, "mul_da"@ + "_dz"@),
        !defines(old(e)@, "mul_da"@ + "_dj"@),
        !defines(old(e)@, "mul_db"@ + "_dz"@),
        !defines(old(e)@, "mul_db"@ + "_dj"@),
    ensures
        final(e).wf(),
        final(e)@ == old(e)@ + mul_entry_asm(),
        forall|n: Seq<char>| #[trigger]
            defines(final(e)@, n) <==> (defines(
                old(e)@,
                n,
            ) || n == "__sf_f32_mul"@ || n == "mul_da"@ + "_dz"@ || n == "mul_da"@ + "_dj"@
                || n == "mul_db"@ + "_dz"@ || n == "mul_db"@ + "_dj"@),
        forall|n: Seq<char>| #[trigger] jumps(
            final(e)@,
            n,
        ) ==> jumps(old(e)@, n) || n == "mul_ret_nan"@ || n == "mul_da"@ + "_dz"@
            || n == "mul_da"@ + "_dj"@ || n == "mul_db"@ + "_dz"@ || n == "mul_db"@ + "_dj"@,
{
    broadcast use {lemma_defines_push, lemma_jumps_push};

    proof {
        lemma_mul_labels();
    }
    e.label("__sf_f32_mul");
    e.mv(T0, A0);
    e.mv(T1, A1);
    e.srli(S2, T0, 31);
    e.srli(S3, T1, 31);
    e.alu_reg(AluOp::Xor, S2, S2, S3);
    is_nan_raw(e, T0, S4, A2, A3);
    e.branch(BCond::Ne, S4, ZERO, "mul_ret_nan");
    is_nan_raw(e, T1, S4, A2, A3);
    e.branch(BCond::Ne, S4, ZERO, "mul_ret_nan");
    decompose_raw(e, "mul_da", T0, T2, S5, S6, A2);
    decompose_raw(e, "mul_db", T1, T3, S7, S8, A2);
    is_inf_raw(e, T0, S9, A2, A3);
    is_inf_raw(e, T1, A4, A2, A3);
    e.sltiu(A2, S5, 1);
    e.sltiu(A3, S6, 1);
    e.alu_reg(AluOp::And, A5, A2, A3);
    e.sltiu(A2, S7, 1);
    e.sltiu(A3, S8, 1);
    e.alu_reg(AluOp::And, A6, A2, A3);
    assert(e@ == old(e)@ + mul_entry_asm()) by {
        broadcast use group_text;

    }
}

/// Infinities and zeros.
fn mul_special(e: &mut Enc)
    requires
        old(e).wf(),
    ensures
        final(e).wf(),
        final(e)@ == old(e)@ + mul_special_asm(),
        forall|n: Seq<char>| #[trigger]
            defines(final(e)@, n) <==> (defines(old(e)@, n)),
        forall|n: Seq<char>| #[trigger] jumps(
            final(e)@,
            n,
        ) ==> jumps(old(e)@, n) || n == "mul_ret_nan"@ || n == "mul_ret_inf"@ || n == "mul_ret_zero"@,
{
    broadcast use {lemma_defines_push, lemma_jumps_push};

    e.alu_reg(AluOp::And, A7, S9, A6);
    e.branch(BCond::Ne, A7, ZERO, "mul_ret_nan");
    e.alu_reg(AluOp::And, A7, A4, A5);
    e.branch(BCond::Ne, A7, ZERO, "mul_ret_nan");
    e.alu_reg(AluOp::Or, A7, S9, A4);
    e.branch(BCond::Ne, A7, ZERO, "mul_ret_inf");
    e.alu_reg(AluOp::Or, A7, A5, A6);
    e.branch(BCond::Ne, A7, ZERO, "mul_ret_zero");
    assert(e@ == old(e)@ + mul_special_asm()) by {
        broadcast use group_text;

    }
}

/// The rounded product of the significands.
fn mul_product(e: &mut Enc)
    requires
        old(e).wf(),
        !defines(old(e)@, "mul_np"@ + "_npl"@),
        !defines(old(e)@, "mul_np"@ + "_nple"@),
        !defines(old(e)@, "mul_np"@ + "_npr"@),
        !defines(old(e)@, "mul_np"@ + "_nprs"@),
        !defines(old(e)@, "mul_np"@ + "_npre"@),
        !defines(old(e)@, "mul_np"@ + "_npu"@),
        !defines(old(e)@, "mul_np"@ + "_npo"@),
        !defines(old(e)@, "mul_np"@ + "_npd"@),
        !defines(old(e)@, "mul_done"@),
    ensures
        final(e).wf(),
        final(e)@ == old(e)@ + mul_product_asm(),
        forall|n: Seq<char>| #[trigger]
            defines(final(e)@, n) <==> (defines(
                old(e)@,
                n,
            ) || n == "mul_np"@ + "_npl"@ || n == "mul_np"@ + "_nple"@ || n == "mul_np"@ + "_npr"@
                || n == "mul_np"@ + "_nprs"@ || n == "mul_np"@ + "_npre"@
                || n == "mul_np"@ + "_npu"@ || n == "mul_np"@ + "_npo"@ || n == "mul_np"@ + "_npd"@
                || n == "mul_done"@),
        forall|n: Seq<char>| #[trigger] jumps(
            final(e)@,
            n,
        ) ==> jumps(old(e)@, n) || n == "mul_np"@ + "_npl"@ || n == "mul_np"@ + "_nple"@
            || n == "mul_np"@ + "_npr"@ || n == "mul_np"@ + "_nprs"@ || n == "mul_np"@ + "_npre"@
            || n == "mul_np"@ + "_npu"@ || n == "mul_np"@ + "_npo"@ || n == "mul_np"@ + "_npd"@
            || n == "mul_done"@,
{
    broadcast use {lemma_defines_push, lemma_jumps_push};

    proof {
        lemma_mul_labels();
    }
    e.mul_reg(MulOp::Mul, T4, S6, S8);
    e.mul_reg(MulOp::Mulhu, T5, S6, S8);
    e.alu_reg(AluOp::Add, T6, S5, S7);
    e.addi(T6, T6, -277);
    norm_and_pack64(e, "mul_np", S2, T4, T5, T6, A0, A2, A3, A7, T2);
    e.li32(T3, 0x7FFF_FFFF);
    e.alu_reg(AluOp::And, T3, A0, T3);
    e.branch(BCond::Ne, T3, ZERO, "mul_done");
    e.slli(A0, S2, 31);
    e.label("mul_done");
    e.ret();
    assert(e@ == old(e)@ + mul_product_asm()) by {
        broadcast use group_text;

    }
}

/// The results that need no arithmetic.
fn mul_returns(e: &mut Enc)
    requires
        old(e).wf(),
        !defines(old(e)@, "mul_ret_nan"@),
        !defines(old(e)@, "mul_ret_inf"@),
        !defines(old(e)@, "mul_ret_zero"@),
    ensures
        final(e).wf(),
        final(e)@ == old(e)@ + mul_returns_asm(),
        forall|n: Seq<char>| #[trigger]
            defines(final(e)@, n) <==> (defines(
                old(e)@,
                n,
            ) || n == "mul_ret_nan"@ || n == "mul_ret_inf"@ || n == "mul_ret_zero"@),
        forall|n: Seq<char>| #[trigger] jumps(final(e)@, n) ==> jumps(old(e)@, n),
{
    broadcast use {lemma_defines_push, lemma_jumps_push};

    proof {
        lemma_mul_labels();
    }
    e.label("mul_ret_nan");
    e.li32(A0, 0x7fc0_0000);
    e.ret();
    e.label("mul_ret_inf");
    e.li32(T2, 0x7F80_0000);
    e.slli(T3, S2, 31);
    e.alu_reg(AluOp::Or, A0, T3, T2);
    e.ret();
    e.label("mul_ret_zero");
    e.slli(A0, S2, 31);
    e.ret();
    assert(e@ == old(e)@ + mul_returns_asm()) by {
        broadcast use group_text;

    }
}

/// Writes `__sf_f32_mul`: `a0 = a0 * a1`.
fn emit_f32_mul(e: &mut Enc)
    requires
        old(e).wf(),
        forall|n: Seq<char>| #[trigger]
            defines(old(e)@, n) ==> !prefixed(n, 'm', 'u', 'l') && n != "__sf_f32_mul"@,
    ensures
        final(e).wf(),
        final(e)@ == old(e)@ + f32_mul_asm(),
        forall|n: Seq<char>| #[trigger]
            defines(final(e)@, n) ==> defines(old(e)@, n) || prefixed(n, 'm', 'u', 'l') || n
                == "__sf_f32_mul"@,
        forall|n: Seq<char>| #[trigger] defines(old(e)@, n) ==> defines(final(e)@, n),
        defines(final(e)@, "__sf_f32_mul"@),
        forall|n: Seq<char>| #[trigger]
            jumps(final(e)@, n) ==> jumps(old(e)@, n) || defines(final(e)@, n),
{
    broadcast use lemma_defines_push;

    proof {
        lemma_mul_labels();
    }
    mul_entry(e);
    mul_special(e);
    mul_product(e);
    mul_returns(e);
    assert(e@ == old(e)@ + f32_mul_asm()) by {
        broadcast use group_text;

    }
}

/// Splits both operands; a NaN returns at once.
fn div_entry(e: &mut Enc)
    requires
        old(e).wf(),
        !defines(old(e)@, "__sf_f32_div"@),
        !defines(old(e)@, "div_da"@ + "_dz"@),
        !defines(old(e)@, "div_da"@ + "_dj"@),
        !defines(old(e)@, "div_db"@ + "_dz"@),
        !defines(old(e)@, "div_db"@ + "_dj"@),
    ensures
        final(e).wf(),
        final(e)@ == old(e)@ + div_entry_asm(),
        forall|n: Seq<char>| #[trigger]
            defines(final(e)@, n) <==> (defines(
                old(e)@,
                n,
            ) || n == "__sf_f32_div"@ || n == "div_da"@ + "_dz"@ || n == "div_da"@ + "_dj"@
                || n == "div_db"@ + "_dz"@ || n == "div_db"@ + "_dj"@),
        forall|n: Seq<char>| #[trigger] jumps(
            final(e)@,
            n,
        ) ==> jumps(old(e)@, n) || n == "div_ret_nan"@ || n == "div_da"@ + "_dz"@
            || n == "div_da"@ + "_dj"@ || n == "div_db"@ + "_dz"@ || n == "div_db"@ + "_dj"@,
{
    broadcast use {lemma_defines_push, lemma_jumps_push};

    proof {
        lemma_div_labels();
    }
    e.label("__sf_f32_div");
    e.mv(T0, A0);
    e.mv(T1, A1);
    e.srli(S2, T0, 31);
    e.srli(S3, T1, 31);
    e.alu_reg(AluOp::Xor, S2, S2, S3);
    is_nan_raw(e, T0, S4, A2, A3);
    e.branch(BCond::Ne, S4, ZERO, "div_ret_nan");
    is_nan_raw(e, T1, S4, A2, A3);
    e.branch(BCond::Ne, S4, ZERO, "div_ret_nan");
    decompose_raw(e, "div_da", T0, T2, S5, S6, A2);
    decompose_raw(e, "div_db", T1, T3, S7, S8, A2);
    is_inf_raw(e, T0, S9, A2, A3);
    is_inf_raw(e, T1, A4, A2, A3);
    e.sltiu(A2, S5, 1);
    e.sltiu(A3, S6, 1);
    e.alu_reg(AluOp::And, A5, A2, A3);
    e.sltiu(A2, S7, 1);
    e.sltiu(A3, S8, 1);
    e.alu_reg(AluOp::And, A6, A2, A3);
    assert(e@ == old(e)@ + div_entry_asm()) by {
        broadcast use group_text;

    }
}

/// Infinities and zeros.
fn div_special(e: &mut Enc)
    requires
        old(e).wf(),
    ensures
        final(e).wf(),
        final(e)@ == old(e)@ + div_special_asm(),
        forall|n: Seq<char>| #[trigger]
            defines(final(e)@, n) <==> (defines(old(e)@, n)),
        forall|n: Seq<char>| #[trigger] jumps(
            final(e)@,
            n,
        ) ==> jumps(old(e)@, n) || n == "div_ret_nan"@ || n == "div_ret_inf"@ || n == "div_ret_zero"@,
{
    broadcast use {lemma_defines_push, lemma_jumps_push};

    e.alu_reg(AluOp::And, A7, S9, A4);
    e.branch(BCond::Ne, A7, ZERO, "div_ret_nan");
    e.alu_reg(AluOp::And, A7, A5, A6);
    e.branch(BCond::Ne, A7, ZERO, "div_ret_nan");
    e.branch(BCond::Ne, S9, ZERO, "div_ret_inf");
    e.branch(BCond::Ne, A5, ZERO, "div_ret_zero");
    e.branch(BCond::Ne, A4, ZERO, "div_ret_zero");
    e.branch(BCond::Ne, A6, ZERO, "div_ret_inf");
    assert(e@ == old(e)@ + div_special_asm()) by {
        broadcast use group_text;

    }
}

/// The quotient of the significands to 24 fractional bits.
fn div_quotient(e: &mut Enc)
    requires
        old(e).wf(),
    ensures
        final(e).wf(),
        final(e)@ == old(e)@ + div_quotient_asm(),
        forall|n: Seq<char>| #[trigger]
            defines(final(e)@, n) <==> (defines(old(e)@, n)),
        forall|n: Seq<char>| #[trigger] jumps(final(e)@, n) ==> jumps(old(e)@, n),
{
    broadcast use {lemma_defines_push, lemma_jumps_push};

    e.mul_reg(MulOp::Divu, T4, S6, S8);
    e.mul_reg(MulOp::Remu, T5, S6, S8);
    e.mv(T6, T4);
    e.slli(T5, T5, 8);
    e.mul_reg(MulOp::Divu, A2, T5, S8);
    e.mul_reg(MulOp::Remu, T5, T5, S8);
    e.slli(T6, T6, 8);
    e.alu_reg(AluOp::Or, T6, T6, A2);
    e.slli(T5, T5, 8);
    e.mul_reg(MulOp::Divu, A2, T5, S8);
    e.mul_reg(MulOp::Remu, T5, T5, S8);
    e.slli(T6, T6, 8);
    e.alu_reg(AluOp::Or, T6, T6, A2);
    e.slli(T5, T5, 8);
    e.mul_reg(MulOp::Divu, A2, T5, S8);
    e.mul_reg(MulOp::Remu, T5, T5, S8);
    e.slli(T6, T6, 8);
    e.alu_reg(AluOp::Or, T6, T6, A2);
    assert(e@ == old(e)@ + div_quotient_asm()) by {
        broadcast use group_text;

    }
}

/// The rounded quotient.
fn div_round(e: &mut Enc)
    requires
        old(e).wf(),
        !defines(old(e)@, "div_np"@ + "_npl"@),
        !defines(old(e)@, "div_np"@ + "_nple"@),
        !defines(old(e)@, "div_np"@ + "_npr"@),
        !defines(old(e)@, "div_np"@ + "_nprs"@),
        !defines(old(e)@, "div_np"@ + "_npre"@),
        !defines(old(e)@, "div_np"@ + "_npu"@),
        !defines(old(e)@, "div_np"@ + "_npo"@),
        !defines(old(e)@, "div_np"@ + "_npd"@),
        !defines(old(e)@, "div_done"@),
    ensures
        final(e).wf(),
        final(e)@ == old(e)@ + div_round_asm(),
        forall|n: Seq<char>| #[trigger]
            defines(final(e)@, n) <==> (defines(
                old(e)@,
                n,
            ) || n == "div_np"@ + "_npl"@ || n == "div_np"@ + "_nple"@ || n == "div_np"@ + "_npr"@
                || n == "div_np"@ + "_nprs"@ || n == "div_np"@ + "_npre"@
                || n == "div_np"@ + "_npu"@ || n == "div_np"@ + "_npo"@ || n == "div_np"@ + "_npd"@
                || n == "div_done"@),
        forall|n: Seq<char>| #[trigger] jumps(
            final(e)@,
            n,
        ) ==> jumps(old(e)@, n) || n == "div_np"@ + "_npl"@ || n == "div_np"@ + "_nple"@
            || n == "div_np"@ + "_npr"@ || n == "div_np"@ + "_nprs"@ || n == "div_np"@ + "_npre"@
            || n == "div_np"@ + "_npu"@ || n == "div_np"@ + "_npo"@ || n == "div_np"@ + "_npd"@
            || n == "div_done"@,
{
    broadcast use {lemma_defines_push, lemma_jumps_push};

    proof {
        lemma_div_labels();
    }
    e.alu_reg(AluOp::Sub, A7, S5, S7);
    e.addi(A7, A7, -1);
    e.mv(T2, ZERO);
    norm_and_pack64(e, "div_np", S2, T6, T2, A7, A0, A2, A3, S5, S6);
    e.li32(S7, 0x7FFF_FFFF);
    e.alu_reg(AluOp::And, S7, A0, S7);
    e.branch(BCond::Ne, S7, ZERO, "div_done");
    e.slli(A0, S2, 31);
    e.label("div_done");
    e.ret();
    assert(e@ == old(e)@ + div_round_asm()) by {
        broadcast use group_text;

    }
}

/// The results that need no arithmetic.
fn div_returns(e: &mut Enc)
    requires
        old(e).wf(),
        !defines(old(e)@, "div_ret_nan"@),
        !defines(old(e)@, "div_ret_zero"@),
        !defines(old(e)@, "div_ret_inf"@),
    ensures
        final(e).wf(),
        final(e)@ == old(e)@ + div_returns_asm(),
        forall|n: Seq<char>| #[trigger]
            defines(final(e)@, n) <==> (defines(
                old(e)@,
                n,
            ) || n == "div_ret_nan"@ || n == "div_ret_zero"@ || n == "div_ret_inf"@),
        forall|n: Seq<char>| #[trigger] jumps(final(e)@, n) ==> jumps(old(e)@, n),
{
    broadcast use {lemma_defines_push, lemma_jumps_push};

    proof {
        lemma_div_labels();
    }
    e.label("div_ret_nan");
    e.li32(A0, 0x7fc0_0000);
    e.ret();
    e.label("div_ret_zero");
    e.slli(A0, S2, 31);
    e.ret();
    e.label("div_ret_inf");
    e.li32(T2, 0x7F80_0000);
    e.slli(T3, S2, 31);
    e.alu_reg(AluOp::Or, A0, T3, T2);
    e.ret();
    assert(e@ == old(e)@ + div_returns_asm()) by {
        broadcast use group_text;

    }
}

/// Writes `__sf_f32_div`: `a0 = a0 / a1`.
fn emit_f32_div(e: &mut Enc)
    requires
        old(e).wf(),
        forall|n: Seq<char>| #[trigger]
            defines(old(e)@, n) ==> !prefixed(n, 'd', 'i', 'v') && n != "__sf_f32_div"@,
    ensures
        final(e).wf(),
        final(e)@ == old(e)@ + f32_div_asm(),
        forall|n: Seq<char>| #[trigger]
            defines(final(e)@, n) ==> defines(old(e)@, n) || prefixed(n, 'd', 'i', 'v') || n
                == "__sf_f32_div"@,
        forall|n: Seq<char>| #[trigger] defines(old(e)@, n) ==> defines(final(e)@, n),
        defines(final(e)@, "__sf_f32_div"@),
        forall|n: Seq<char>| #[trigger]
            jumps(final(e)@, n) ==> jumps(old(e)@, n) || defines(final(e)@, n),
{
    broadcast use lemma_defines_push;

    proof {
        lemma_div_labels();
    }
    div_entry(e);
    div_special(e);
    div_quotient(e);
    div_round(e);
    div_returns(e);
    assert(e@ == old(e)@ + f32_div_asm()) by {
        broadcast use group_text;

    }
}

/// Splits both operands; a NaN returns at once.
fn cmp_entry(e: &mut Enc)
    requires
        old(e).wf(),
        !defines(old(e)@, "__sf_f32_cmp"@),
        !defines(old(e)@, "cmp_da"@ + "_dz"@),
        !defines(old(e)@, "cmp_da"@ + "_dj"@),
        !defines(old(e)@, "cmp_db"@ + "_dz"@),
        !defines(old(e)@, "cmp_db"@ + "_dj"@),
    ensures
        final(e).wf(),
        final(e)@ == old(e)@ + cmp_entry_asm(),
        forall|n: Seq<char>| #[trigger]
            defines(final(e)@, n) <==> (defines(
                old(e)@,
                n,
            ) || n == "__sf_f32_cmp"@ || n == "cmp_da"@ + "_dz"@ || n == "cmp_da"@ + "_dj"@
                || n == "cmp_db"@ + "_dz"@ || n == "cmp_db"@ + "_dj"@),
        forall|n: Seq<char>| #[trigger] jumps(
            final(e)@,
            n,
        ) ==> jumps(old(e)@, n) || n == "cmp_ret_m2"@ || n == "cmp_da"@ + "_dz"@
            || n == "cmp_da"@ + "_dj"@ || n == "cmp_db"@ + "_dz"@ || n == "cmp_db"@ + "_dj"@,
{
    broadcast use {lemma_defines_push, lemma_jumps_push};

    proof {
        lemma_cmp_labels();
    }
    e.label("__sf_f32_cmp");
    e.mv(T0, A0);
    e.mv(T1, A1);
    is_nan_raw(e, T0, S2, A2, A3);
    e.branch(BCond::Ne, S2, ZERO, "cmp_ret_m2");
    is_nan_raw(e, T1, S2, A2, A3);
    e.branch(BCond::Ne, S2, ZERO, "cmp_ret_m2");
    decompose_raw(e, "cmp_da", T0, S4, S5, S6, A2);
    decompose_raw(e, "cmp_db", T1, S7, S8, S9, A2);
    e.sltiu(A2, S5, 1);
    e.sltiu(A3, S6, 1);
    e.alu_reg(AluOp::And, A4, A2, A3);
    e.sltiu(A2, S8, 1);
    e.sltiu(A3, S9, 1);
    e.alu_reg(AluOp::And, A5, A2, A3);
    assert(e@ == old(e)@ + cmp_entry_asm()) by {
        broadcast use group_text;

    }
}

/// Where one operand is zero, the sign of the other decides.
fn cmp_zeros(e: &mut Enc)
    requires
        old(e).wf(),
        !defines(old(e)@, "cmp_skip_zz"@),
        !defines(old(e)@, "cmp_za_neg1"@),
        !defines(old(e)@, "cmp_skip_za"@),
        !defines(old(e)@, "cmp_zb_pos1"@),
        !defines(old(e)@, "cmp_skip_zb"@),
    ensures
        final(e).wf(),
        final(e)@ == old(e)@ + cmp_zeros_asm(),
        forall|n: Seq<char>| #[trigger]
            defines(final(e)@, n) <==> (defines(
                old(e)@,
                n,
            ) || n == "cmp_skip_zz"@ || n == "cmp_za_neg1"@ || n == "cmp_skip_za"@
                || n == "cmp_zb_pos1"@ || n == "cmp_skip_zb"@),
        forall|n: Seq<char>| #[trigger] jumps(
            final(e)@,
            n,
        ) ==> jumps(old(e)@, n) || n == "cmp_skip_zz"@ || n == "cmp_ret_0"@ || n == "cmp_skip_za"@
            || n == "cmp_za_neg1"@ || n == "cmp_skip_zb"@ || n == "cmp_zb_pos1"@,
{
    broadcast use {lemma_defines_push, lemma_jumps_push};

    proof {
        lemma_cmp_labels();
    }
    e.branch(BCond::Eq, A4, ZERO, "cmp_skip_zz");
    e.branch(BCond::Eq, A5, ZERO, "cmp_skip_zz");
    e.jump("cmp_ret_0");
    e.label("cmp_skip_zz");
    e.branch(BCond::Eq, A4, ZERO, "cmp_skip_za");
    e.branch(BCond::Eq, S7, ZERO, "cmp_za_neg1");
    e.li32(A0, 1);
    e.ret();
    e.label("cmp_za_neg1");
    e.li32(A0, -1);
    e.ret();
    e.label("cmp_skip_za");
    e.branch(BCond::Eq, A5, ZERO, "cmp_skip_zb");
    e.branch(BCond::Eq, S4, ZERO, "cmp_zb_pos1");
    e.li32(A0, -1);
    e.ret();
    e.label("cmp_zb_pos1");
    e.li32(A0, 1);
    e.ret();
    e.label("cmp_skip_zb");
    assert(e@ == old(e)@ + cmp_zeros_asm()) by {
        broadcast use group_text;

    }
}

/// Where the signs differ, they decide.
fn cmp_signs(e: &mut Enc)
    requires
        old(e).wf(),
        !defines(old(e)@, "cmp_diffsign_pos"@),
        !defines(old(e)@, "cmp_same_sign"@),
    ensures
        final(e).wf(),
        final(e)@ == old(e)@ + cmp_signs_asm(),
        forall|n: Seq<char>| #[trigger]
            defines(final(e)@, n) <==> (defines(
                old(e)@,
                n,
            ) || n == "cmp_diffsign_pos"@ || n == "cmp_same_sign"@),
        forall|n: Seq<char>| #[trigger] jumps(
            final(e)@,
            n,
        ) ==> jumps(old(e)@, n) || n == "cmp_same_sign"@ || n == "cmp_diffsign_pos"@,
{
    broadcast use {lemma_defines_push, lemma_jumps_push};

    proof {
        lemma_cmp_labels();
    }
    e.branch(BCond::Eq, S4, S7, "cmp_same_sign");
    e.branch(BCond::Eq, S4, ZERO, "cmp_diffsign_pos");
    e.li32(A0, -1);
    e.ret();
    e.label("cmp_diffsign_pos");
    e.li32(A0, 1);
    e.ret();
    e.label("cmp_same_sign");
    assert(e@ == old(e)@ + cmp_signs_asm()) by {
        broadcast use group_text;

    }
}

/// The order of the magnitudes.
fn cmp_magnitudes(e: &mut Enc)
    requires
        old(e).wf(),
        !defines(old(e)@, "cmp_mag_lt_e"@),
        !defines(old(e)@, "cmp_use_mant"@),
        !defines(old(e)@, "cmp_mag_lt_m"@),
        !defines(old(e)@, "cmp_mag_eq"@),
        !defines(old(e)@, "cmp_mag_done"@),
    ensures
        final(e).wf(),
        final(e)@ == old(e)@ + cmp_magnitudes_asm(),
        forall|n: Seq<char>| #[trigger]
            defines(final(e)@, n) <==> (defines(
                old(e)@,
                n,
            ) || n == "cmp_mag_lt_e"@ || n == "cmp_use_mant"@ || n == "cmp_mag_lt_m"@
                || n == "cmp_mag_eq"@ || n == "cmp_mag_done"@),
        forall|n: Seq<char>| #[trigger] jumps(
            final(e)@,
            n,
        ) ==> jumps(old(e)@, n) || n == "cmp_use_mant"@ || n == "cmp_mag_lt_e"@
            || n == "cmp_mag_done"@ || n == "cmp_mag_eq"@ || n == "cmp_mag_lt_m"@,
{
    broadcast use {lemma_defines_push, lemma_jumps_push};

    proof {
        lemma_cmp_labels();
    }
    e.branch(BCond::Eq, S5, S8, "cmp_use_mant");
    e.alu_reg(AluOp::Sltu, A2, S5, S8);
    e.branch(BCond::Ne, A2, ZERO, "cmp_mag_lt_e");
    e.li32(A6, 1);
    e.jump("cmp_mag_done");
    e.label("cmp_mag_lt_e");
    e.li32(A6, -1);
    e.jump("cmp_mag_done");
    e.label("cmp_use_mant");
    e.branch(BCond::Eq, S6, S9, "cmp_mag_eq");
    e.alu_reg(AluOp::Sltu, A2, S6, S9);
    e.branch(BCond::Ne, A2, ZERO, "cmp_mag_lt_m");
    e.li32(A6, 1);
    e.jump("cmp_mag_done");
    e.label("cmp_mag_lt_m");
    e.li32(A6, -1);
    e.jump("cmp_mag_done");
    e.label("cmp_mag_eq");
    e.li32(A6, 0);
    e.label("cmp_mag_done");
    assert(e@ == old(e)@ + cmp_magnitudes_asm()) by {
        broadcast use group_text;

    }
}

/// The order of the values.
fn cmp_returns(e: &mut Enc)
    requires
        old(e).wf(),
        !defines(old(e)@, "cmp_no_negate"@),
        !defines(old(e)@, "cmp_ret_m2"@),
        !defines(old(e)@, "cmp_ret_0"@),
    ensures
        final(e).wf(),
        final(e)@ == old(e)@ + cmp_returns_asm(),
        forall|n: Seq<char>| #[trigger]
            defines(final(e)@, n) <==> (defines(
                old(e)@,
                n,
            ) || n == "cmp_no_negate"@ || n == "cmp_ret_m2"@ || n == "cmp_ret_0"@),
        forall|n: Seq<char>| #[trigger] jumps(
            final(e)@,
            n,
        ) ==> jumps(old(e)@, n) || n == "cmp_no_negate"@,
{
    broadcast use {lemma_defines_push, lemma_jumps_push};

    proof {
        lemma_cmp_labels();
    }
    e.branch(BCond::Eq, S4, ZERO, "cmp_no_negate");
    e.alu_reg(AluOp::Sub, A6, ZERO, A6);
    e.label("cmp_no_negate");
    e.mv(A0, A6);
    e.ret();
    e.label("cmp_ret_m2");
    e.li32(A0, -2);
    e.ret();
    e.label("cmp_ret_0");
    e.li32(A0, 0);
    e.ret();
    assert(e@ == old(e)@ + cmp_returns_asm()) by {
        broadcast use group_text;

    }
}

/// Writes `__sf_f32_cmp`: `a0` = the order code of `a0` and `a1`.
fn emit_f32_cmp(e: &mut Enc)
    requires
        old(e).wf(),
        forall|n: Seq<char>| #[trigger]
            defines(old(e)@, n) ==> !prefixed(n, 'c', 'm', 'p') && n != "__sf_f32_cmp"@,
    ensures
        final(e).wf(),
        final(e)@ == old(e)@ + f32_cmp_asm(),
        forall|n: Seq<char>| #[trigger]
            defines(final(e)@, n) ==> defines(old(e)@, n) || prefixed(n, 'c', 'm', 'p') || n
                == "__sf_f32_cmp"@,
        forall|n: Seq<char>| #[trigger] defines(old(e)@, n) ==> defines(final(e)@, n),
        defines(final(e)@, "__sf_f32_cmp"@),
        forall|n: Seq<char>| #[trigger]
            jumps(final(e)@, n) ==> jumps(old(e)@, n) || defines(final(e)@, n),
{
    broadcast use lemma_defines_push;

    proof {
        lemma_cmp_labels();
    }
    cmp_entry(e);
    cmp_zeros(e);
    cmp_signs(e);
    cmp_magnitudes(e);
    cmp_returns(e);
    assert(e@ == old(e)@ + f32_cmp_asm()) by {
        broadcast use group_text;

    }
}

/// The sign and the magnitude.
fn i2f_entry(e: &mut Enc)
    requires
        old(e).wf(),
        !defines(old(e)@, "__sf_i32_to_f32"@),
        !defines(old(e)@, "i2f_nonzero"@),
        !defines(old(e)@, "i2f_pos"@),
        !defines(old(e)@, "i2f_mag_done"@),
    ensures
        final(e).wf(),
        final(e)@ == old(e)@ + i2f_entry_asm(),
        forall|n: Seq<char>| #[trigger]
            defines(final(e)@, n) <==> (defines(
                old(e)@,
                n,
            ) || n == "__sf_i32_to_f32"@ || n == "i2f_nonzero"@ || n == "i2f_pos"@
                || n == "i2f_mag_done"@),
        forall|n: Seq<char>| #[trigger] jumps(
            final(e)@,
            n,
        ) ==> jumps(old(e)@, n) || n == "i2f_nonzero"@ || n == "i2f_pos"@ || n == "i2f_mag_done"@,
{
    broadcast use {lemma_defines_push, lemma_jumps_push};

    proof {
        lemma_i2f_labels();
    }
    e.label("__sf_i32_to_f32");
    e.mv(T0, A0);
    e.branch(BCond::Ne, T0, ZERO, "i2f_nonzero");
    e.li32(A0, 0);
    e.ret();
    e.label("i2f_nonzero");
    e.srli(S2, T0, 31);
    e.branch(BCond::Eq, S2, ZERO, "i2f_pos");
    e.alu_reg(AluOp::Sub, S3, ZERO, T0);
    e.jump("i2f_mag_done");
    e.label("i2f_pos");
    e.mv(S3, T0);
    e.label("i2f_mag_done");
    assert(e@ == old(e)@ + i2f_entry_asm()) by {
        broadcast use group_text;

    }
}

/// The rounded magnitude.
fn i2f_round(e: &mut Enc)
    requires
        old(e).wf(),
        !defines(old(e)@, "i2f_np"@ + "_npl"@),
        !defines(old(e)@, "i2f_np"@ + "_nple"@),
        !defines(old(e)@, "i2f_np"@ + "_npr"@),
        !defines(old(e)@, "i2f_np"@ + "_nprs"@),
        !defines(old(e)@, "i2f_np"@ + "_npre"@),
        !defines(old(e)@, "i2f_np"@ + "_npu"@),
        !defines(old(e)@, "i2f_np"@ + "_npo"@),
        !defines(old(e)@, "i2f_np"@ + "_npd"@),
    ensures
        final(e).wf(),
        final(e)@ == old(e)@ + i2f_round_asm(),
        forall|n: Seq<char>| #[trigger]
            defines(final(e)@, n) <==> (defines(
                old(e)@,
                n,
            ) || n == "i2f_np"@ + "_npl"@ || n == "i2f_np"@ + "_nple"@ || n == "i2f_np"@ + "_npr"@
                || n == "i2f_np"@ + "_nprs"@ || n == "i2f_np"@ + "_npre"@
                || n == "i2f_np"@ + "_npu"@ || n == "i2f_np"@ + "_npo"@
                || n == "i2f_np"@ + "_npd"@),
        forall|n: Seq<char>| #[trigger] jumps(
            final(e)@,
            n,
        ) ==> jumps(old(e)@, n) || n == "i2f_np"@ + "_npl"@ || n == "i2f_np"@ + "_nple"@
            || n == "i2f_np"@ + "_npr"@ || n == "i2f_np"@ + "_nprs"@ || n == "i2f_np"@ + "_npre"@
            || n == "i2f_np"@ + "_npu"@ || n == "i2f_np"@ + "_npo"@ || n == "i2f_np"@ + "_npd"@,
{
    broadcast use {lemma_defines_push, lemma_jumps_push};

    proof {
        lemma_i2f_labels();
    }
    e.mv(S4, ZERO);
    e.li32(S5, 23);
    norm_and_pack64(e, "i2f_np", S2, S3, S4, S5, A0, A2, A3, A6, A7);
    e.ret();
    assert(e@ == old(e)@ + i2f_round_asm()) by {
        broadcast use group_text;

    }
}

/// Writes `__sf_i32_to_f32`: `a0` = the pattern of the signed integer `a0`.
fn emit_i32_to_f32(e: &mut Enc)
    requires
        old(e).wf(),
        forall|n: Seq<char>| #[trigger]
            defines(old(e)@, n) ==> !prefixed(n, 'i', '2', 'f') && n != "__sf_i32_to_f32"@,
    ensures
        final(e).wf(),
        final(e)@ == old(e)@ + i32_to_f32_asm(),
        forall|n: Seq<char>| #[trigger]
            defines(final(e)@, n) ==> defines(old(e)@, n) || prefixed(n, 'i', '2', 'f') || n
                == "__sf_i32_to_f32"@,
        forall|n: Seq<char>| #[trigger] defines(old(e)@, n) ==> defines(final(e)@, n),
        defines(final(e)@, "__sf_i32_to_f32"@),
        forall|n: Seq<char>| #[trigger]
            jumps(final(e)@, n) ==> jumps(old(e)@, n) || defines(final(e)@, n),
{
    broadcast use lemma_defines_push;

    proof {
        lemma_i2f_labels();
    }
    i2f_entry(e);
    i2f_round(e);
    assert(e@ == old(e)@ + i32_to_f32_asm()) by {
        broadcast use group_text;

    }
}

/// Zero returns at once.
fn u2f_entry(e: &mut Enc)
    requires
        old(e).wf(),
        !defines(old(e)@, "__sf_u32_to_f32"@),
        !defines(old(e)@, "u2f_nonzero"@),
    ensures
        final(e).wf(),
        final(e)@ == old(e)@ + u2f_entry_asm(),
        forall|n: Seq<char>| #[trigger]
            defines(final(e)@, n) <==> (defines(
                old(e)@,
                n,
            ) || n == "__sf_u32_to_f32"@ || n == "u2f_nonzero"@),
        forall|n: Seq<char>| #[trigger] jumps(
            final(e)@,
            n,
        ) ==> jumps(old(e)@, n) || n == "u2f_nonzero"@,
{
    broadcast use {lemma_defines_push, lemma_jumps_push};

    proof {
        lemma_u2f_labels();
    }
    e.label("__sf_u32_to_f32");
    e.mv(T0, A0);
    e.branch(BCond::Ne, T0, ZERO, "u2f_nonzero");
    e.li32(A0, 0);
    e.ret();
    e.label("u2f_nonzero");
    assert(e@ == old(e)@ + u2f_entry_asm()) by {
        broadcast use group_text;

    }
}

/// The rounded integer.
fn u2f_round(e: &mut Enc)
    requires
        old(e).wf(),
        !defines(old(e)@, "u2f_np"@ + "_npl"@),
        !defines(old(e)@, "u2f_np"@ + "_nple"@),
        !defines(old(e)@, "u2f_np"@ + "_npr"@),
        !defines(old(e)@, "u2f_np"@ + "_nprs"@),
        !defines(old(e)@, "u2f_np"@ + "_npre"@),
        !defines(old(e)@, "u2f_np"@ + "_npu"@),
        !defines(old(e)@, "u2f_np"@ + "_npo"@),
        !defines(old(e)@, "u2f_np"@ + "_npd"@),
    ensures
        final(e).wf(),
        final(e)@ == old(e)@ + u2f_round_asm(),
        forall|n: Seq<char>| #[trigger]
            defines(final(e)@, n) <==> (defines(
                old(e)@,
                n,
            ) || n == "u2f_np"@ + "_npl"@ || n == "u2f_np"@ + "_nple"@ || n == "u2f_np"@ + "_npr"@
                || n == "u2f_np"@ + "_nprs"@ || n == "u2f_np"@ + "_npre"@
                || n == "u2f_np"@ + "_npu"@ || n == "u2f_np"@ + "_npo"@
                || n == "u2f_np"@ + "_npd"@),
        forall|n: Seq<char>| #[trigger] jumps(
            final(e)@,
            n,
        ) ==> jumps(old(e)@, n) || n == "u2f_np"@ + "_npl"@ || n == "u2f_np"@ + "_nple"@
            || n == "u2f_np"@ + "_npr"@ || n == "u2f_np"@ + "_nprs"@ || n == "u2f_np"@ + "_npre"@
            || n == "u2f_np"@ + "_npu"@ || n == "u2f_np"@ + "_npo"@ || n == "u2f_np"@ + "_npd"@,
{
    broadcast use {lemma_defines_push, lemma_jumps_push};

    proof {
        lemma_u2f_labels();
    }
    e.mv(S2, ZERO);
    e.mv(S3, T0);
    e.mv(S4, ZERO);
    e.li32(S5, 23);
    norm_and_pack64(e, "u2f_np", S2, S3, S4, S5, A0, A2, A3, A6, A7);
    e.ret();
    assert(e@ == old(e)@ + u2f_round_asm()) by {
        broadcast use group_text;

    }
}

/// Writes `__sf_u32_to_f32`: `a0` = the pattern of the unsigned integer `a0`.
fn emit_u32_to_f32(e: &mut Enc)
    requires
        old(e).wf(),
        forall|n: Seq<char>| #[trigger]
            defines(old(e)@, n) ==> !prefixed(n, 'u', '2', 'f') && n != "__sf_u32_to_f32"@,
    ensures
        final(e).wf(),
        final(e)@ == old(e)@ + u32_to_f32_asm(),
        forall|n: Seq<char>| #[trigger]
            defines(final(e)@, n) ==> defines(old(e)@, n) || prefixed(n, 'u', '2', 'f') || n
                == "__sf_u32_to_f32"@,
        forall|n: Seq<char>| #[trigger] defines(old(e)@, n) ==> defines(final(e)@, n),
        defines(final(e)@, "__sf_u32_to_f32"@),
        forall|n: Seq<char>| #[trigger]
            jumps(final(e)@, n) ==> jumps(old(e)@, n) || defines(final(e)@, n),
{
    broadcast use lemma_defines_push;

    proof {
        lemma_u2f_labels();
    }
    u2f_entry(e);
    u2f_round(e);
    assert(e@ == old(e)@ + u32_to_f32_asm()) by {
        broadcast use group_text;

    }
}

/// NaN, infinities and zeros return at once.
fn f2i_entry(e: &mut Enc)
    requires
        old(e).wf(),
        !defines(old(e)@, "__sf_f32_to_i32"@),
        !defines(old(e)@, "f2i_d"@ + "_dz"@),
        !defines(old(e)@, "f2i_d"@ + "_dj"@),
        !defines(old(e)@, "f2i_inf_max"@),
        !defines(old(e)@, "f2i_not_inf"@),
    ensures
        final(e).wf(),
        final(e)@ == old(e)@ + f2i_entry_asm(),
        forall|n: Seq<char>| #[trigger]
            defines(final(e)@, n) <==> (defines(
                old(e)@,
                n,
            ) || n == "__sf_f32_to_i32"@ || n == "f2i_d"@ + "_dz"@ || n == "f2i_d"@ + "_dj"@
                || n == "f2i_inf_max"@ || n == "f2i_not_inf"@),
        forall|n: Seq<char>| #[trigger] jumps(
            final(e)@,
            n,
        ) ==> jumps(old(e)@, n) || n == "f2i_ret_zero"@ || n == "f2i_d"@ + "_dz"@
            || n == "f2i_d"@ + "_dj"@ || n == "f2i_not_inf"@ || n == "f2i_inf_max"@,
{
    broadcast use {lemma_defines_push, lemma_jumps_push};

    proof {
        lemma_f2i_labels();
    }
    e.label("__sf_f32_to_i32");
    e.mv(T0, A0);
    is_nan_raw(e, T0, S2, A2, A3);
    e.branch(BCond::Ne, S2, ZERO, "f2i_ret_zero");
    decompose_raw(e, "f2i_d", T0, S3, S4, S5, A2);
    is_inf_raw(e, T0, S6, A2, A3);
    e.branch(BCond::Eq, S6, ZERO, "f2i_not_inf");
    e.branch(BCond::Eq, S3, ZERO, "f2i_inf_max");
    e.li32(A0, i32::MIN);
    e.ret();
    e.label("f2i_inf_max");
    e.li32(A0, i32::MAX);
    e.ret();
    e.label("f2i_not_inf");
    e.branch(BCond::Eq, S4, ZERO, "f2i_ret_zero");
    e.mv(S7, S4);
    e.addi(S7, S7, -127);
    e.addi(S7, S7, -23);
    assert(e@ == old(e)@ + f2i_entry_asm()) by {
        broadcast use group_text;

    }
}

/// A magnitude that is an integer, or too large.
fn f2i_large(e: &mut Enc)
    requires
        old(e).wf(),
        !defines(old(e)@, "f2i_shl_loop"@),
        !defines(old(e)@, "f2i_shl_done"@),
        !defines(old(e)@, "f2i_overflow"@),
        !defines(old(e)@, "f2i_of_max"@),
    ensures
        final(e).wf(),
        final(e)@ == old(e)@ + f2i_large_asm(),
        forall|n: Seq<char>| #[trigger]
            defines(final(e)@, n) <==> (defines(
                old(e)@,
                n,
            ) || n == "f2i_shl_loop"@ || n == "f2i_shl_done"@ || n == "f2i_overflow"@
                || n == "f2i_of_max"@),
        forall|n: Seq<char>| #[trigger] jumps(
            final(e)@,
            n,
        ) ==> jumps(old(e)@, n) || n == "f2i_eneg"@ || n == "f2i_overflow"@ || n == "f2i_shl_done"@
            || n == "f2i_shl_loop"@ || n == "f2i_have_mag"@ || n == "f2i_of_max"@,
{
    broadcast use {lemma_defines_push, lemma_jumps_push};

    proof {
        lemma_f2i_labels();
    }
    e.branch(BCond::Lt, S7, ZERO, "f2i_eneg");
    e.li32(A2, 8);
    e.branch(BCond::Ge, S7, A2, "f2i_overflow");
    e.mv(S8, S5);
    e.mv(S9, S7);
    e.label("f2i_shl_loop");
    e.branch(BCond::Eq, S9, ZERO, "f2i_shl_done");
    e.slli(S8, S8, 1);
    e.addi(S9, S9, -1);
    e.jump("f2i_shl_loop");
    e.label("f2i_shl_done");
    e.jump("f2i_have_mag");
    e.label("f2i_overflow");
    e.branch(BCond::Eq, S3, ZERO, "f2i_of_max");
    e.li32(A0, i32::MIN);
    e.ret();
    e.label("f2i_of_max");
    e.li32(A0, i32::MAX);
    e.ret();
    assert(e@ == old(e)@ + f2i_large_asm()) by {
        broadcast use group_text;

    }
}

/// A magnitude with a fraction to drop.
fn f2i_small(e: &mut Enc)
    requires
        old(e).wf(),
        !defines(old(e)@, "f2i_eneg"@),
        !defines(old(e)@, "f2i_shr_loop"@),
        !defines(old(e)@, "f2i_shr_done"@),
        !defines(old(e)@, "f2i_shr_zero"@),
        !defines(old(e)@, "f2i_have_mag"@),
    ensures
        final(e).wf(),
        final(e)@ == old(e)@ + f2i_small_asm(),
        forall|n: Seq<char>| #[trigger]
            defines(final(e)@, n) <==> (defines(
                old(e)@,
                n,
            ) || n == "f2i_eneg"@ || n == "f2i_shr_loop"@ || n == "f2i_shr_done"@
                || n == "f2i_shr_zero"@ || n == "f2i_have_mag"@),
        forall|n: Seq<char>| #[trigger] jumps(
            final(e)@,
            n,
        ) ==> jumps(old(e)@, n) || n == "f2i_shr_zero"@ || n == "f2i_shr_done"@
            || n == "f2i_shr_loop"@ || n == "f2i_have_mag"@,
{
    broadcast use {lemma_defines_push, lemma_jumps_push};

    proof {
        lemma_f2i_labels();
    }
    e.label("f2i_eneg");
    e.alu_reg(AluOp::Sub, S9, ZERO, S7);
    e.li32(A2, 32);
    e.branch(BCond::Ge, S9, A2, "f2i_shr_zero");
    e.mv(S8, S5);
    e.label("f2i_shr_loop");
    e.branch(BCond::Eq, S9, ZERO, "f2i_shr_done");
    e.srli(S8, S8, 1);
    e.addi(S9, S9, -1);
    e.jump("f2i_shr_loop");
    e.label("f2i_shr_done");
    e.jump("f2i_have_mag");
    e.label("f2i_shr_zero");
    e.mv(S8, ZERO);
    e.label("f2i_have_mag");
    assert(e@ == old(e)@ + f2i_small_asm()) by {
        broadcast use group_text;

    }
}

/// The signed integer.
fn f2i_returns(e: &mut Enc)
    requires
        old(e).wf(),
        !defines(old(e)@, "f2i_pos_signed"@),
        !defines(old(e)@, "f2i_ret_zero"@),
    ensures
        final(e).wf(),
        final(e)@ == old(e)@ + f2i_returns_asm(),
        forall|n: Seq<char>| #[trigger]
            defines(final(e)@, n) <==> (defines(
                old(e)@,
                n,
            ) || n == "f2i_pos_signed"@ || n == "f2i_ret_zero"@),
        forall|n: Seq<char>| #[trigger] jumps(
            final(e)@,
            n,
        ) ==> jumps(old(e)@, n) || n == "f2i_pos_signed"@,
{
    broadcast use {lemma_defines_push, lemma_jumps_push};

    proof {
        lemma_f2i_labels();
    }
    e.branch(BCond::Eq, S3, ZERO, "f2i_pos_signed");
    e.alu_reg(AluOp::Sub, S8, ZERO, S8);
    e.label("f2i_pos_signed");
    e.mv(A0, S8);
    e.ret();
    e.label("f2i_ret_zero");
    e.li32(A0, 0);
    e.ret();
    assert(e@ == old(e)@ + f2i_returns_asm()) by {
        broadcast use group_text;

    }
}

/// Writes `__sf_f32_to_i32`: `a0` = the signed integer part of `a0`.
fn emit_f32_to_i32(e: &mut Enc)
    requires
        old(e).wf(),
        forall|n: Seq<char>| #[trigger]
            defines(old(e)@, n) ==> !prefixed(n, 'f', '2', 'i') && n != "__sf_f32_to_i32"@,
    ensures
        final(e).wf(),
        final(e)@ == old(e)@ + f32_to_i32_asm(),
        forall|n: Seq<char>| #[trigger]
            defines(final(e)@, n) ==> defines(old(e)@, n) || prefixed(n, 'f', '2', 'i') || n
                == "__sf_f32_to_i32"@,
        forall|n: Seq<char>| #[trigger] defines(old(e)@, n) ==> defines(final(e)@, n),
        defines(final(e)@, "__sf_f32_to_i32"@),
        forall|n: Seq<char>| #[trigger]
            jumps(final(e)@, n) ==> jumps(old(e)@, n) || defines(final(e)@, n),
{
    broadcast use lemma_defines_push;

    proof {
        lemma_f2i_labels();
    }
    f2i_entry(e);
    f2i_large(e);
    f2i_small(e);
    f2i_returns(e);
    assert(e@ == old(e)@ + f32_to_i32_asm()) by {
        broadcast use group_text;

    }
}

/// NaN, negative values, infinity and zeros return at once.
fn f2u_entry(e: &mut Enc)
    requires
        old(e).wf(),
        !defines(old(e)@, "__sf_f32_to_u32"@),
        !defines(old(e)@, "f2u_d"@ + "_dz"@),
        !defines(old(e)@, "f2u_d"@ + "_dj"@),
        !defines(old(e)@, "f2u_sign_ok"@),
        !defines(old(e)@, "f2u_not_inf"@),
    ensures
        final(e).wf(),
        final(e)@ == old(e)@ + f2u_entry_asm(),
        forall|n: Seq<char>| #[trigger]
            defines(final(e)@, n) <==> (defines(
                old(e)@,
                n,
            ) || n == "__sf_f32_to_u32"@ || n == "f2u_d"@ + "_dz"@ || n == "f2u_d"@ + "_dj"@
                || n == "f2u_sign_ok"@ || n == "f2u_not_inf"@),
        forall|n: Seq<char>| #[trigger] jumps(
            final(e)@,
            n,
        ) ==> jumps(old(e)@, n) || n == "f2u_ret_zero"@ || n == "f2u_d"@ + "_dz"@
            || n == "f2u_d"@ + "_dj"@ || n == "f2u_sign_ok"@ || n == "f2u_not_inf"@,
{
    broadcast use {lemma_defines_push, lemma_jumps_push};

    proof {
        lemma_f2u_labels();
    }
    e.label("__sf_f32_to_u32");
    e.mv(T0, A0);
    is_nan_raw(e, T0, S2, A2, A3);
    e.branch(BCond::Ne, S2, ZERO, "f2u_ret_zero");
    decompose_raw(e, "f2u_d", T0, S3, S4, S5, A2);
    e.branch(BCond::Eq, S3, ZERO, "f2u_sign_ok");
    e.sltiu(A2, S4, 1);
    e.sltiu(A3, S5, 1);
    e.alu_reg(AluOp::And, A2, A2, A3);
    e.branch(BCond::Ne, A2, ZERO, "f2u_sign_ok");
    e.li32(A0, 0);
    e.ret();
    e.label("f2u_sign_ok");
    is_inf_raw(e, T0, S6, A2, A3);
    e.branch(BCond::Eq, S6, ZERO, "f2u_not_inf");
    e.li32(A0, -1);
    e.ret();
    e.label("f2u_not_inf");
    e.branch(BCond::Eq, S4, ZERO, "f2u_ret_zero");
    e.mv(S7, S4);
    e.addi(S7, S7, -127);
    e.addi(S7, S7, -23);
    assert(e@ == old(e)@ + f2u_entry_asm()) by {
        broadcast use group_text;

    }
}

/// A value that is an integer, or too large.
fn f2u_large(e: &mut Enc)
    requires
        old(e).wf(),
        !defines(old(e)@, "f2u_shl_loop"@),
        !defines(old(e)@, "f2u_shl_done"@),
        !defines(old(e)@, "f2u_overflow"@),
    ensures
        final(e).wf(),
        final(e)@ == old(e)@ + f2u_large_asm(),
        forall|n: Seq<char>| #[trigger]
            defines(final(e)@, n) <==> (defines(
                old(e)@,
                n,
            ) || n == "f2u_shl_loop"@ || n == "f2u_shl_done"@ || n == "f2u_overflow"@),
        forall|n: Seq<char>| #[trigger] jumps(
            final(e)@,
            n,
        ) ==> jumps(old(e)@, n) || n == "f2u_eneg"@ || n == "f2u_overflow"@ || n == "f2u_shl_done"@
            || n == "f2u_shl_loop"@,
{
    broadcast use {lemma_defines_push, lemma_jumps_push};

    proof {
        lemma_f2u_labels();
    }
    e.branch(BCond::Lt, S7, ZERO, "f2u_eneg");
    e.li32(A2, 9);
    e.branch(BCond::Ge, S7, A2, "f2u_overflow");
    e.mv(S8, S5);
    e.mv(S9, S7);
    e.label("f2u_shl_loop");
    e.branch(BCond::Eq, S9, ZERO, "f2u_shl_done");
    e.slli(S8, S8, 1);
    e.addi(S9, S9, -1);
    e.jump("f2u_shl_loop");
    e.label("f2u_shl_done");
    e.mv(A0, S8);
    e.ret();
    e.label("f2u_overflow");
    e.li32(A0, -1);
    e.ret();
    assert(e@ == old(e)@ + f2u_large_asm()) by {
        broadcast use group_text;

    }
}

/// A value with a fraction to drop.
fn f2u_small(e: &mut Enc)
    requires
        old(e).wf(),
        !defines(old(e)@, "f2u_eneg"@),
        !defines(old(e)@, "f2u_shr_loop"@),
        !defines(old(e)@, "f2u_shr_done"@),
        !defines(old(e)@, "f2u_shr_zero"@),
        !defines(old(e)@, "f2u_ret_zero"@),
    ensures
        final(e).wf(),
        final(e)@ == old(e)@ + f2u_small_asm(),
        forall|n: Seq<char>| #[trigger]
            defines(final(e)@, n) <==> (defines(
                old(e)@,
                n,
            ) || n == "f2u_eneg"@ || n == "f2u_shr_loop"@ || n == "f2u_shr_done"@
                || n == "f2u_shr_zero"@ || n == "f2u_ret_zero"@),
        forall|n: Seq<char>| #[trigger] jumps(
            final(e)@,
            n,
        ) ==> jumps(old(e)@, n) || n == "f2u_shr_zero"@ || n == "f2u_shr_done"@ || n == "f2u_shr_loop"@,
{
    broadcast use {lemma_defines_push, lemma_jumps_push};

    proof {
        lemma_f2u_labels();
    }
    e.label("f2u_eneg");
    e.alu_reg(AluOp::Sub, S9, ZERO, S7);
    e.li32(A2, 32);
    e.branch(BCond::Ge, S9, A2, "f2u_shr_zero");
    e.mv(S8, S5);
    e.label("f2u_shr_loop");
    e.branch(BCond::Eq, S9, ZERO, "f2u_shr_done");
    e.srli(S8, S8, 1);
    e.addi(S9, S9, -1);
    e.jump("f2u_shr_loop");
    e.label("f2u_shr_done");
    e.mv(A0, S8);
    e.ret();
    e.label("f2u_shr_zero");
    e.li32(A0, 0);
    e.ret();
    e.label("f2u_ret_zero");
    e.li32(A0, 0);
    e.ret();
    assert(e@ == old(e)@ + f2u_small_asm()) by {
        broadcast use group_text;

    }
}

/// Writes `__sf_f32_to_u32`: `a0` = the unsigned integer part of `a0`.
fn emit_f32_to_u32(e: &mut Enc)
    requires
        old(e).wf(),
        forall|n: Seq<char>| #[trigger]
            defines(old(e)@, n) ==> !prefixed(n, 'f', '2', 'u') && n != "__sf_f32_to_u32"@,
    ensures
        final(e).wf(),
        final(e)@ == old(e)@ + f32_to_u32_asm(),
        forall|n: Seq<char>| #[trigger]
            defines(final(e)@, n) ==> defines(old(e)@, n) || prefixed(n, 'f', '2', 'u') || n
                == "__sf_f32_to_u32"@,
        forall|n: Seq<char>| #[trigger] defines(old(e)@, n) ==> defines(final(e)@, n),
        defines(final(e)@, "__sf_f32_to_u32"@),
        forall|n: Seq<char>| #[trigger]
            jumps(final(e)@, n) ==> jumps(old(e)@, n) || defines(final(e)@, n),
{
    broadcast use lemma_defines_push;

    proof {
        lemma_f2u_labels();
    }
    f2u_entry(e);
    f2u_large(e);
    f2u_small(e);
    assert(e@ == old(e)@ + f32_to_u32_asm()) by {
        broadcast use group_text;

    }
}

proof fn lemma_joined(
    t: Seq<Asm>,
    a: Seq<Asm>,
    b: Seq<Asm>,
    c: Seq<Asm>,
    d: Seq<Asm>,
    x: Seq<Asm>,
    y: Seq<Asm>,
    z: Seq<Asm>,
    w: Seq<Asm>,
)
    ensures
        t + (a + b + c + d + x + y + z + w) == t + a + b + c + d + x + y + z + w,
{
    broadcast use group_text;

}

proof fn lemma_two_operand_lengths()
    ensures
        f32_add_asm().len() == 266,
        f32_mul_asm().len() == 144,
        f32_div_asm().len() == 161,
        f32_cmp_asm().len() == 110,
{
}

proof fn lemma_conversion_lengths()
    ensures
        i32_to_f32_asm().len() == 61,
        u32_to_f32_asm().len() == 56,
        f32_to_i32_asm().len() == 85,
        f32_to_u32_asm().len() == 82,
{
}

/// The runtime is not empty, and short enough for every jump in it.
pub proof fn law_runtime_is_short()
    ensures
        0 < text_len(runtime_asm()),
        4 * text_len(runtime_asm()) <= 0x2000,
        in_reach(runtime_asm()),
{
    reveal(runtime_asm);
    lemma_two_operand_lengths();
    lemma_conversion_lengths();
    assert(runtime_asm().len() == 965);
    lemma_few_words(runtime_asm());
    assert(runtime_asm()[1] == f32_add_asm()[1]);
    assert(runtime_asm()[1] == mv_asm(T0, A0));
    lemma_line_counted(runtime_asm(), 1);
    law_short_text_is_in_reach(runtime_asm());
}

/// Whether a text has neither labels nor jumps.
pub open spec fn bare(text: Seq<Asm>) -> bool {
    &&& forall|n: Seq<char>| !#[trigger] defines(text, n)
    &&& forall|n: Seq<char>| !#[trigger] jumps(text, n)
}

/// A text of lines that neither name a place nor jump is bare, such as one of `nop`s.
pub proof fn law_bare_lines(text: Seq<Asm>, a: Asm)
    requires
        !(a is Label),
        target_of(a) is None,
    ensures
        bare(Seq::empty()),
        bare(text) ==> bare(text.push(a)),
{
    broadcast use {lemma_defines_push, lemma_jumps_push};

    lemma_defines_empty();
    lemma_jumps_empty();
}

/// Whether a text can be finished, and its bytes are those of another and of the runtime.
pub open spec fn moved_behind(front: Seq<Asm>, whole: Seq<Asm>) -> bool {
    &&& linkable(whole)
    &&& assemble(whole) == assemble(front) + assemble(runtime_asm())
}

proof fn lemma_behind_bare(front: Seq<Asm>, whole: Seq<Asm>)
    requires
        whole == front + runtime_asm(),
        forall|n: Seq<char>| #[trigger] jumps(whole, n) ==> jumps(front, n) || defines(whole, n),
    ensures
        bare(front) ==> moved_behind(front, whole),
{
    if bare(front) {
        assert forall|n: Seq<char>| #[trigger] jumps(runtime_asm(), n) implies defines(
            runtime_asm(),
            n,
        ) by {
            lemma_joined_names(front, runtime_asm(), n);
        }
        law_runtime_is_short();
        law_closed_text_moves(front, runtime_asm());
    }
}

/// Writes every routine of the runtime. Behind a text that has neither labels nor jumps its bytes
/// are the same wherever it starts, and the code can be finished.
pub fn emit_runtime(e: &mut Enc)
    requires
        old(e).wf(),
        forall|n: Seq<char>| #[trigger] defines(old(e)@, n) ==> !runtime_name(n),
    ensures
        final(e).wf(),
        final(e)@ == old(e)@ + runtime_asm(),
        forall|n: Seq<char>| #[trigger]
            defines(final(e)@, n) ==> defines(old(e)@, n) || runtime_name(n),
        forall|n: Seq<char>| #[trigger]
            defines(old(e)@, n) || entry_name(n) ==> defines(final(e)@, n),
        forall|n: Seq<char>| #[trigger]
            jumps(final(e)@, n) ==> jumps(old(e)@, n) || defines(final(e)@, n),
        bare(old(e)@) ==> moved_behind(old(e)@, final(e)@),
{
    proof {
        lemma_entry_names();
    }
    emit_f32_add(e);
    emit_f32_mul(e);
    emit_f32_div(e);
    emit_f32_cmp(e);
    emit_i32_to_f32(e);
    emit_u32_to_f32(e);
    emit_f32_to_i32(e);
    emit_f32_to_u32(e);
    assert(e@ == old(e)@ + runtime_asm()) by {
        reveal(runtime_asm);
        lemma_joined(
            old(e)@,
            f32_add_asm(),
            f32_mul_asm(),
            f32_div_asm(),
            f32_cmp_asm(),
            i32_to_f32_asm(),
            u32_to_f32_asm(),
            f32_to_i32_asm(),
            f32_to_u32_asm(),
        );
    }
    proof {
        lemma_behind_bare(old(e)@, e@);
    }
}

} // verus!
