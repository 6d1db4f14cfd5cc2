//! Each row holds operands and the result that exact rational arithmetic gives, truncated to 24
//! bits of mantissa. A result below the normal range is a zero.

use basalt::rv::softfloat_ref::{
    rtz_add32, rtz_cmp32, rtz_div32, rtz_f32_to_i32, rtz_f32_to_u32, rtz_i32_to_f32, rtz_mul32, rtz_sub32,
    rtz_u32_to_f32,
};

fn check_binop(vectors: &[(u32, u32, u32)], f: impl Fn(u32, u32) -> u32) {
    let mut n = 0;
    for &(a, b, expect) in vectors {
        let got = f(a, b);
        assert_eq!(
            got, expect,
            "mismatch for a={a:08x} b={b:08x}: got {got:08x}, want {expect:08x}"
        );
        n += 1;
    }
    assert!(n > 100, "suspiciously few rows: {n}");
}

const ADD: &[(u32, u32, u32)] = &[
    (0x70dad69c, 0xc42f1474, 0x70dad69b),
    (0x029da51f, 0xf09e1d01, 0xf09e1d00),
    (0x2e5fdb1b, 0x2e5fd33f, 0x2edfd72d),
    (0xc4048b27, 0x44048765, 0xbd708000),
    (0x70b9ef74, 0x4459c150, 0x70b9ef74),
    (0x43d2d9f3, 0x490ab2a0, 0x490accfb),
    (0x4426f9b0, 0x3a6424b7, 0x4426f9be),
    (0xedb0257a, 0x441f1cd9, 0xedb02579),
    (0xb9916474, 0x71279773, 0x71279772),
    (0x0f48451f, 0x8f484f76, 0x89257000),
    (0x70aca9d6, 0x70a363ae, 0x712806c2),
    (0x4aacebf2, 0x4aace5f4, 0x4b2ce8f3),
    (0xe9b684e7, 0x69b68e41, 0x6395a000),
    (0xc3f727be, 0xa2014376, 0xc3f727be),
    (0x397fb8bb, 0xf126f53d, 0xf126f53c),
    (0xc2f464a2, 0xc2f46e61, 0xc3746981),
    (0x4b259710, 0xcb259d2e, 0xc4c3c000),
    (0x3a72eb5a, 0xc2da9614, 0xc2da959a),
    (0xd967b9b8, 0xc3808cb0, 0xd967b9b8),
    (0x4a1a7a58, 0x4a1a725c, 0x4a9a765a),
    (0x4b20f418, 0xcb20f517, 0xc37f0000),
    (0x3a5559eb, 0x4477aa36, 0x4477aa43),
    (0x399146e7, 0x440e956f, 0x440e9573),
    (0x3a369bf8, 0xc3c41779, 0xc3c41762),
    (0x43e3d438, 0x43b94afb, 0x444e8f99),
    (0x39adb2cb, 0xb9adbfa6, 0xb3cdb000),
    (0x430ef962, 0xc39bfedc, 0xc3290456),
    (0x3a657359, 0x3981b3f8, 0x3a9326aa),
    (0xc6ed8a9f, 0x46ed8851, 0xbf938000),
    (0x44234e79, 0xc4234ad7, 0x3d688000),
    (0xba25c46e, 0x3a25c2a4, 0xb2e50000),
    (0xf121e114, 0x7121ed1b, 0x6b407000),
    (0xc02f6ec2, 0x70e1f258, 0x70e1f257),
    (0xc3576f09, 0x39c493d0, 0xc3576ef0),
    (0x6cf80799, 0x44467520, 0x6cf80799),
    (0x4b1b89e3, 0x7118dd90, 0x7118dd90),
    (0xc426a237, 0xb80ad34e, 0xc426a237),
    (0x29ebd122, 0x39d1ec3a, 0x39d1ec3a),
    (0x8f891922, 0x0f8918c7, 0x87360000),
    (0xba80d8ad, 0x4a53c024, 0x4a53c023),
    (0x714756d7, 0xf14751f2, 0x6a9ca000),
    (0x0a6d64fe, 0xc4064cdb, 0xc4064cda),
    (0x44105bb1, 0xc454dc14, 0xc38900c6),
    (0x70f1b5bd, 0x39dbc7ae, 0x70f1b5bd),
    (0x37bc2f83, 0x3a2600d8, 0x3a2be254),
    (0x3fc7f182, 0x432e155e, 0x432fa541),
    (0x4acd35a2, 0xc294c657, 0x4acd350d),
    (0x43cefa9a, 0xc3cef2a8, 0x3d7e4000),
    (0x38e395e9, 0x98b8f154, 0x38e395e8),
    (0xc404363d, 0xba2bd882, 0xc4043647),
    (0xc4130f8e, 0xf1395b13, 0xf1395b13),
    (0x714890f5, 0xba727fb5, 0x714890f4),
    (0xcb03d902, 0xcb03daa8, 0xcb83d9d5),
    (0x443daa2f, 0xc39e23ab, 0x43dd30b3),
    (0x39943484, 0xc43e2aad, 0xc43e2aa8),
    (0x432e1098, 0xc32e12e3, 0xbc12c000),
    (0x4a8b099e, 0x4a8b0400, 0x4b0b06cf),
    (0xc40fb0dc, 0xc40fb8f2, 0xc48fb4e7),
    (0xc29c7270, 0xc29c7eb5, 0xc31c7892),
    (0xc42cad62, 0xc43acf6c, 0xc4b3be67),
    (0x39d76c98, 0xb9d76f2b, 0xb2a4c000),
    (0xf034fb54, 0x7034fc21, 0x684d0000),
    (0x3a043e7b, 0xc478da7a, 0xc478da71),
    (0x43f46357, 0x389c2a08, 0x43f46359),
    (0x44443bf7, 0x399d6f26, 0x44443bfb),
    (0xc460d8e2, 0xc460dd4c, 0xc4e0db17),
    (0xa9a98ddd, 0x29a986d6, 0xa360e000),
    (0x70d00a42, 0x6f6f28c5, 0x70edef5a),
    (0xb993440c, 0x399349fc, 0x333e0000),
    (0xba6be64a, 0x3a6bee4e, 0x34004000),
    (0xcabeb29c, 0x43cecffe, 0xcabeaf60),
    (0x0e88b182, 0x0e88b468, 0x0f08b2f5),
    (0xba223e7e, 0xfdf98664, 0xfdf98664),
    (0xb9276931, 0xb92766c5, 0xb9a767fb),
    (0xba6a0fa8, 0x3a6a0cdd, 0xb332c000),
    (0xf138ffae, 0xf138f880, 0xf1b8fc17),
    (0x71151554, 0xf11bd8f7, 0xeed87460),
    (0xc3ebb624, 0xb8f37a41, 0xc3ebb627),
    (0xf0d8c826, 0xba7a0a9d, 0xf0d8c826),
    (0x10ffcca1, 0x90ffc69e, 0x0a406000),
    (0xc3b83c28, 0xb883194f, 0xc3b83c2a),
    (0x443492bd, 0x713ab1aa, 0x713ab1aa),
    (0x4393b0ea, 0x0fd5e08f, 0x4393b0ea),
    (0x1323647a, 0x4148c28d, 0x4148c28d),
    (0x15370a4e, 0x440d9018, 0x440d9018),
    (0x3a0ce355, 0xc43c1313, 0xc43c130a),
    (0xc41d139b, 0x445f46ac, 0x43846622),
    (0xc46ec0f9, 0xc45433bf, 0xc4e17a5c),
    (0xed7c1583, 0x43f87ce9, 0xed7c1582),
    (0x43da482d, 0x414a8e52, 0x43e09c9f),
    (0xc4358e05, 0xf13314f7, 0xf13314f7),
    (0xc430f48c, 0xc430fc7e, 0xc4b0f885),
    (0x711f53d4, 0x4412f8df, 0x711f53d4),
    (0x4b7e3a99, 0x4b7e3ad3, 0x4bfe3ab6),
    (0xc3ac9cc0, 0xb80e7f67, 0xc3ac9cc1),
    (0xc4442b50, 0xc4442938, 0xc4c42a44),
    (0x37c5dbcf, 0xc3d892d3, 0xc3d892d2),
    (0xd66225ad, 0x44046725, 0xd66225ac),
    (0xc0a149c6, 0x443ef634, 0x443db3a0),
    (0x703a928f, 0xc30d0d24, 0x703a928e),
    (0x971c05f7, 0xf13fa60a, 0xf13fa60a),
    (0xc42c1aa9, 0xc42c18d2, 0xc4ac19bd),
    (0x4324b1fb, 0x43a1107d, 0x43f3697a),
    (0x441816e2, 0x44181bca, 0x44981956),
    (0x3a6b20f0, 0xb9d360e3, 0x3a01707e),
    (0x4422cc23, 0x4422c5f7, 0x44a2c90d),
    (0x41dc33b9, 0x60745463, 0x60745463),
    (0x703cd865, 0xc332fff3, 0x703cd864),
    (0xcafae6a8, 0xc38802a6, 0xcafae8c8),
    (0xc459e0a4, 0xc4709259, 0xc4e5397e),
    (0xf107a704, 0x71124683, 0x6f29f7f0),
    (0xc448d0b2, 0x4448d666, 0x3db68000),
    (0xba3fe7e3, 0x4355fce3, 0x4355fcb3),
    (0xb8da25dc, 0xf077bfbb, 0xf077bfbb),
    (0xe7d0efef, 0x67d0ec9b, 0xe0d50000),
    (0xb9ef416e, 0x42937a45, 0x42937a09),
    (0xc42c436a, 0xc38784e1, 0xc47005da),
    (0xc465e052, 0x70eb21fc, 0x70eb21fb),
    (0x70d1c4c2, 0x44723042, 0x70d1c4c2),
    (0x392859b8, 0x43b8f939, 0x43b8f93e),
    (0x43d8953a, 0xc3ff272c, 0xc29a47c8),
    (0xba5ded10, 0xcab4af86, 0xcab4af86),
    (0x71253fe3, 0xc43e1242, 0x71253fe2),
    (0x70575560, 0xba4e6544, 0x7057555f),
    (0xfa350a8f, 0x3ddf20af, 0xfa350a8e),
    (0x4b7a84d3, 0x4b7a8ff3, 0x4bfa8a63),
    (0xba7e09b1, 0xba51adee, 0xbae7dbcf),
    (0xc38e73c7, 0x4470645b, 0x44292a77),
    (0x444d0b85, 0xc473f96a, 0xc31bb794),
    (0x44042afc, 0x421edefb, 0x440e18eb),
    (0x4b47e423, 0xc3c748a4, 0x4b47e294),
    (0x13e0b814, 0xcb6b85c5, 0xcb6b85c4),
    (0xf0f78964, 0x70f78a4d, 0x68e90000),
    (0xef9c0d78, 0x2e25b665, 0xef9c0d77),
    (0xca420428, 0x68267b12, 0x68267b11),
    (0x384e9709, 0x43b17664, 0x43b17665),
    (0x38b8146b, 0xf0bf15e2, 0xf0bf15e1),
    (0x4b178739, 0xba688235, 0x4b178738),
    (0x4a8a3dbe, 0xb999e017, 0x4a8a3dbd),
    (0x39a3c722, 0xc9c98f99, 0xc9c98f98),
    (0xe1ee4707, 0x43eea05c, 0xe1ee4706),
    (0xf0a2253f, 0x711d4a68, 0x70986f91),
    (0xcb4db76a, 0x4256e22b, 0xcb4db734),
    (0xf082484a, 0x4473c860, 0xf0824849),
    (0xc291b4d8, 0x395fba25, 0xc291b4bc),
    (0xf019ecbe, 0x4403b755, 0xf019ecbd),
    (0xc46ab832, 0x438f8897, 0xc422f3e6),
    (0xc2933a77, 0xc45fcf82, 0xc47236d0),
    (0x4a88117a, 0x4424b5bb, 0x4a88169f),
    (0x4b3f64d4, 0x707c9db6, 0x707c9db6),
];

const ADD_SPECIALS: &[(u32, u32, u32)] = &[
    (0x3fc00000, 0x3fc00000, 0x40400000),
    (0x3fc00000, 0xc0200000, 0xbf800000),
    (0x3fc00000, 0x00000000, 0x3fc00000),
    (0x3fc00000, 0x80000000, 0x3fc00000),
    (0x3fc00000, 0x7f800000, 0x7f800000),
    (0x3fc00000, 0xff800000, 0xff800000),
    (0x3fc00000, 0x7fc00001, 0x7fc00000),
    (0x3fc00000, 0x00800000, 0x3fc00000),
    (0x3fc00000, 0x80800000, 0x3fbfffff),
    (0x3fc00000, 0x7f7fffff, 0x7f7fffff),
    (0x3fc00000, 0xff7fffff, 0xff7ffffe),
    (0xc0200000, 0x3fc00000, 0xbf800000),
    (0xc0200000, 0xc0200000, 0xc0a00000),
    (0xc0200000, 0x00000000, 0xc0200000),
    (0xc0200000, 0x80000000, 0xc0200000),
    (0xc0200000, 0x7f800000, 0x7f800000),
    (0xc0200000, 0xff800000, 0xff800000),
    (0xc0200000, 0x7fc00001, 0x7fc00000),
    (0xc0200000, 0x00800000, 0xc01fffff),
    (0xc0200000, 0x80800000, 0xc0200000),
    (0xc0200000, 0x7f7fffff, 0x7f7ffffe),
    (0xc0200000, 0xff7fffff, 0xff7fffff),
    (0x00000000, 0x3fc00000, 0x3fc00000),
    (0x00000000, 0xc0200000, 0xc0200000),
    (0x00000000, 0x00000000, 0x00000000),
    (0x00000000, 0x80000000, 0x00000000),
    (0x00000000, 0x7f800000, 0x7f800000),
    (0x00000000, 0xff800000, 0xff800000),
    (0x00000000, 0x7fc00001, 0x7fc00000),
    (0x00000000, 0x00800000, 0x00800000),
    (0x00000000, 0x80800000, 0x80800000),
    (0x00000000, 0x7f7fffff, 0x7f7fffff),
    (0x00000000, 0xff7fffff, 0xff7fffff),
    (0x80000000, 0x3fc00000, 0x3fc00000),
    (0x80000000, 0xc0200000, 0xc0200000),
    (0x80000000, 0x00000000, 0x00000000),
    (0x80000000, 0x80000000, 0x80000000),
    (0x80000000, 0x7f800000, 0x7f800000),
    (0x80000000, 0xff800000, 0xff800000),
    (0x80000000, 0x7fc00001, 0x7fc00000),
    (0x80000000, 0x00800000, 0x00800000),
    (0x80000000, 0x80800000, 0x80800000),
    (0x80000000, 0x7f7fffff, 0x7f7fffff),
    (0x80000000, 0xff7fffff, 0xff7fffff),
    (0x7f800000, 0x3fc00000, 0x7f800000),
    (0x7f800000, 0xc0200000, 0x7f800000),
    (0x7f800000, 0x00000000, 0x7f800000),
    (0x7f800000, 0x80000000, 0x7f800000),
    (0x7f800000, 0x7f800000, 0x7f800000),
    (0x7f800000, 0xff800000, 0x7fc00000),
    (0x7f800000, 0x7fc00001, 0x7fc00000),
    (0x7f800000, 0x00800000, 0x7f800000),
    (0x7f800000, 0x80800000, 0x7f800000),
    (0x7f800000, 0x7f7fffff, 0x7f800000),
    (0x7f800000, 0xff7fffff, 0x7f800000),
    (0xff800000, 0x3fc00000, 0xff800000),
    (0xff800000, 0xc0200000, 0xff800000),
    (0xff800000, 0x00000000, 0xff800000),
    (0xff800000, 0x80000000, 0xff800000),
    (0xff800000, 0x7f800000, 0x7fc00000),
    (0xff800000, 0xff800000, 0xff800000),
    (0xff800000, 0x7fc00001, 0x7fc00000),
    (0xff800000, 0x00800000, 0xff800000),
    (0xff800000, 0x80800000, 0xff800000),
    (0xff800000, 0x7f7fffff, 0xff800000),
    (0xff800000, 0xff7fffff, 0xff800000),
    (0x7fc00001, 0x3fc00000, 0x7fc00000),
    (0x7fc00001, 0xc0200000, 0x7fc00000),
    (0x7fc00001, 0x00000000, 0x7fc00000),
    (0x7fc00001, 0x80000000, 0x7fc00000),
    (0x7fc00001, 0x7f800000, 0x7fc00000),
    (0x7fc00001, 0xff800000, 0x7fc00000),
    (0x7fc00001, 0x7fc00001, 0x7fc00000),
    (0x7fc00001, 0x00800000, 0x7fc00000),
    (0x7fc00001, 0x80800000, 0x7fc00000),
    (0x7fc00001, 0x7f7fffff, 0x7fc00000),
    (0x7fc00001, 0xff7fffff, 0x7fc00000),
    (0x00800000, 0x3fc00000, 0x3fc00000),
    (0x00800000, 0xc0200000, 0xc01fffff),
    (0x00800000, 0x00000000, 0x00800000),
    (0x00800000, 0x80000000, 0x00800000),
    (0x00800000, 0x7f800000, 0x7f800000),
    (0x00800000, 0xff800000, 0xff800000),
    (0x00800000, 0x7fc00001, 0x7fc00000),
    (0x00800000, 0x00800000, 0x01000000),
    (0x00800000, 0x80800000, 0x00000000),
    (0x00800000, 0x7f7fffff, 0x7f7fffff),
    (0x00800000, 0xff7fffff, 0xff7ffffe),
    (0x80800000, 0x3fc00000, 0x3fbfffff),
    (0x80800000, 0xc0200000, 0xc0200000),
    (0x80800000, 0x00000000, 0x80800000),
    (0x80800000, 0x80000000, 0x80800000),
    (0x80800000, 0x7f800000, 0x7f800000),
    (0x80800000, 0xff800000, 0xff800000),
    (0x80800000, 0x7fc00001, 0x7fc00000),
    (0x80800000, 0x00800000, 0x00000000),
    (0x80800000, 0x80800000, 0x81000000),
    (0x80800000, 0x7f7fffff, 0x7f7ffffe),
    (0x80800000, 0xff7fffff, 0xff7fffff),
    (0x7f7fffff, 0x3fc00000, 0x7f7fffff),
    (0x7f7fffff, 0xc0200000, 0x7f7ffffe),
    (0x7f7fffff, 0x00000000, 0x7f7fffff),
    (0x7f7fffff, 0x80000000, 0x7f7fffff),
    (0x7f7fffff, 0x7f800000, 0x7f800000),
    (0x7f7fffff, 0xff800000, 0xff800000),
    (0x7f7fffff, 0x7fc00001, 0x7fc00000),
    (0x7f7fffff, 0x00800000, 0x7f7fffff),
    (0x7f7fffff, 0x80800000, 0x7f7ffffe),
    (0x7f7fffff, 0x7f7fffff, 0x7f800000),
    (0x7f7fffff, 0xff7fffff, 0x00000000),
    (0xff7fffff, 0x3fc00000, 0xff7ffffe),
    (0xff7fffff, 0xc0200000, 0xff7fffff),
    (0xff7fffff, 0x00000000, 0xff7fffff),
    (0xff7fffff, 0x80000000, 0xff7fffff),
    (0xff7fffff, 0x7f800000, 0x7f800000),
    (0xff7fffff, 0xff800000, 0xff800000),
    (0xff7fffff, 0x7fc00001, 0x7fc00000),
    (0xff7fffff, 0x00800000, 0xff7ffffe),
    (0xff7fffff, 0x80800000, 0xff7fffff),
    (0xff7fffff, 0x7f7fffff, 0x00000000),
    (0xff7fffff, 0xff7fffff, 0xff800000),
];

const MUL: &[(u32, u32, u32)] = &[
    (0x3a78402c, 0xba784d29, 0xb570c8fd),
    (0x444b10db, 0x444b17e4, 0x49211951),
    (0x7132d668, 0x7132d6ff, 0x7f800000),
    (0xc461ec96, 0x4a50c438, 0xcf383d64),
    (0x4a4fbf88, 0xca4fb33a, 0xd5288d50),
    (0x39d1b461, 0x4ad1ff20, 0x452c0540),
    (0xba7257ea, 0x43b7659a, 0xbead9d06),
    (0xc467abe2, 0x3880e2e4, 0xbd69468a),
    (0x3d855ad4, 0xc43bc0c8, 0xc2439b8a),
    (0xc4096688, 0xc4096ba0, 0x48938345),
    (0x41a3d8d6, 0xf878722e, 0xfa9f0323),
    (0x4af56cf6, 0x4a20b214, 0x559a0ed2),
    (0x70359c09, 0xcb7e59bd, 0xfc34707a),
    (0x4ae293a2, 0xcae291c4, 0xd6488758),
    (0x51217ffd, 0x59727c28, 0x6b18f950),
    (0xcae84d6a, 0xcae84e9d, 0x5652cd7e),
    (0xf79b44e0, 0x779b43bc, 0xff800000),
    (0xc3b9e090, 0x43b9e2d5, 0xc806f7fa),
    (0x3a720ea9, 0xb9e0b5de, 0xb4d478ca),
    (0x396c2a22, 0xb96c228a, 0xb359d6b4),
    (0x04ae7d57, 0x84ae7f31, 0x80000000),
    (0xc38a14be, 0x4b678392, 0xcf79bf5d),
    (0xc47622b0, 0xf09b4cf3, 0x759550fc),
    (0xf113472d, 0x3a15e75f, 0xebac7b12),
    (0xb9a6046c, 0xb9a600f2, 0x33d74ef5),
    (0xc408fd02, 0xc408f89a, 0x489296e1),
    (0x43aab932, 0xcb630a47, 0xcf976911),
    (0x3a0336a2, 0xce2d7577, 0xc8b1d040),
    (0x710bd5ab, 0xc4221bd5, 0xf5b118d4),
    (0xba23afdb, 0xc24889b7, 0x3d003971),
    (0xdde24f81, 0xf805ba13, 0x7f800000),
    (0x3a3d5c28, 0x6744c81a, 0x62118e91),
    (0xc46dd6a5, 0xcb433c2d, 0x50356267),
    (0x7cc0c399, 0xba2b6b5d, 0xf781137e),
    (0x3a782173, 0xb90a5c27, 0xb4061b59),
    (0xc44aa10e, 0xcb0ab510, 0x4fdb9444),
    (0xb99290a3, 0x6c8081f0, 0xe693256b),
    (0x4393bf59, 0x444f77c3, 0x486f79ae),
    (0xc2d8e082, 0xc2d8e2ac, 0x4637bd75),
    (0xc335f764, 0xc2c32bbb, 0x468aba86),
    (0x4116e73e, 0x4116e6ec, 0x42b1e73a),
    (0xb550291a, 0xc3d7e79d, 0x39af8ed9),
    (0xba2bce78, 0xba2bca3c, 0x34e69546),
    (0xc3984a68, 0x4b29f648, 0xcf4a3741),
    (0xf11ee405, 0x3a2844bd, 0xebd0e09a),
    (0xc45d4e1d, 0xca782a14, 0x4f56880c),
    (0x43f1624c, 0x70acbe9d, 0x7522e1c6),
    (0xc35cbd60, 0xc43862dc, 0x481efd5b),
    (0x43aa6386, 0x5d86e592, 0x61b391c8),
    (0x3a3f84c1, 0x44071171, 0x3eca181c),
    (0xf08270bb, 0x38128b7f, 0xe91556bd),
    (0xc35b5268, 0x435b507a, 0xc73be471),
    (0x93e3b60e, 0xc5045c2f, 0x196b77bc),
    (0x3a168265, 0x3a1680ef, 0x34b0f869),
    (0xc44b5b4f, 0x4428a53c, 0xc905f72d),
    (0x4b7d7e25, 0x713d6f3a, 0x7d3b9444),
    (0xc46e0c92, 0x3a815865, 0xbf708d0f),
    (0x6bc30417, 0xebc30e27, 0xff800000),
    (0xb92f1d2c, 0x41f022ab, 0xbba44310),
    (0xf01bf415, 0x42268ad9, 0xf2cae9b6),
    (0x44686324, 0x4383b213, 0x486f18c3),
    (0x4b2c092d, 0x4b04d5a7, 0x56b2889e),
    (0xc3e2780a, 0xc23c2ba7, 0x46a676c5),
    (0x3a0d68ba, 0xf0e4124e, 0xeb7bf6c4),
    (0x3a7b8cc5, 0x149370f5, 0x0f90e0d3),
    (0xc378cd04, 0xc378c364, 0x4771c481),
    (0xc40541fb, 0x710bac28, 0xf59168e0),
    (0x7091fecf, 0xcb5313d6, 0xfc70c0a9),
    (0xf1485061, 0xf14859b5, 0x7f800000),
    (0x39b5cf2d, 0xf0d0f5bb, 0xeb1466d8),
    (0xc28843a5, 0x436446a8, 0xc67303b5),
    (0x4478ac66, 0x6fb70ac3, 0x74b1cdb1),
    (0x39d296fb, 0xc457c41f, 0xbeb17e21),
    (0x39e7fef2, 0x43c335b8, 0x3e30e7e0),
    (0xb9864d91, 0xe2baabe9, 0x5cc3dd16),
    (0x4462a25b, 0x442f4d84, 0x491b319b),
    (0xc418f510, 0x70195548, 0xf4b73ad5),
    (0x3fb2ce61, 0x3fb2c22a, 0x3ff9b63a),
    (0x4b2523dc, 0x43fe3997, 0x4fa3feba),
    (0x710fa849, 0x43e90344, 0x7582c1ff),
    (0xf077a5bb, 0x3a2f9887, 0xeb29ddd7),
    (0x71080fe2, 0x3901a7c8, 0x6a89d25b),
    (0x055addcc, 0x855adb3d, 0x80000000),
    (0xc463375b, 0xc2acfcc8, 0x4799898d),
    (0x4a20061c, 0x3a5bc7c9, 0x4509621c),
    (0xc42ad805, 0x43cb0148, 0xc8877a26),
    (0xf10b5ace, 0x4b2cf7d8, 0xfcbc4fd9),
    (0xc426195a, 0x4af8d1c6, 0xcfa170aa),
    (0x43a6b4bc, 0xc3a6b897, 0xc7d922cc),
    (0xc37a8e54, 0x437a8525, 0xc775314e),
    (0x39383332, 0x3938386e, 0x33048d66),
    (0x3a5ea869, 0x4b4ca695, 0x4631ff16),
    (0x74dde94c, 0x74dde22b, 0x7f800000),
    (0x44663cc5, 0x3656716a, 0x3b40dccc),
    (0x4347ac15, 0x43e14e9f, 0x47afbb90),
    (0xde03c534, 0x3906ce4b, 0xd78ac6d1),
    (0x43938016, 0xb930bb3c, 0xbd4ba7e0),
    (0xb97d5d30, 0xcb30796a, 0x452ea83a),
    (0xc42d5e2f, 0xef89a0ee, 0x743a68c6),
    (0x399c9762, 0xb99c970d, 0xb3bf9149),
    (0x4441aa92, 0x440e504d, 0x48d752b9),
    (0xb881255b, 0x992554b0, 0x1226cf99),
    (0x8b9608c7, 0xba44a95d, 0x066683f5),
    (0x43bcd245, 0x3a27b7e7, 0x3e77699f),
    (0xf00c8b19, 0xc3106ffe, 0x739e9773),
    (0x441bb526, 0xc3bebe0c, 0xc8680813),
    (0x0bea5ce7, 0xa6ef126c, 0x80000000),
    (0x4406f6c8, 0xc406ff9e, 0xc88e57df),
    (0xc40be61d, 0x4a83d7c6, 0xcf101956),
    (0x4441d3eb, 0x4441d88d, 0x4912c4b9),
    (0x4a7f0e14, 0xf1466ba3, 0xfc45b020),
    (0xc41c5a4f, 0xb20a4c55, 0x36a8ee9a),
    (0xc3d70cbb, 0xc3d701da, 0x48349d3f),
    (0xc4275729, 0xf11e53a3, 0x75cefcee),
    (0xc4559e54, 0xf12122f4, 0x760675bd),
    (0xf1057271, 0x9751f2ea, 0x48dae21c),
    (0xc2f79a7d, 0x4456ec08, 0xc7cfdf6e),
    (0x854e4213, 0xf135c34e, 0x37127212),
    (0x399a3140, 0x399a3aa1, 0x33b9c9e1),
    (0x7144ace5, 0x43d9f391, 0x75a771ad),
    (0xb87840f4, 0x3a4ac29b, 0xb3449ff8),
    (0xc4370d9a, 0xc4370718, 0x4902dfcb),
    (0x44097624, 0x6f0786e1, 0x73918b73),
    (0xba55b519, 0x447508a3, 0xbf4c8d86),
    (0xf1311214, 0x713110c7, 0xff800000),
    (0x4346355f, 0x43463b47, 0x47197b2c),
    (0xc40020cd, 0xc33ee79e, 0x47bf1889),
    (0x436e0db9, 0xb93fb8fc, 0xbd324841),
    (0x44744459, 0xba5ffe15, 0xbf55b9f9),
    (0xf5775bff, 0x75775e0d, 0xff800000),
    (0x43a996ef, 0x443f4475, 0x487d69eb),
    (0x4f208826, 0x4b1c68b6, 0x5ac42941),
    (0x44521b97, 0xf066b505, 0xf53d595b),
    (0xb9a6dc34, 0x44641043, 0xbe94a6b7),
    (0xef0ce8b9, 0x6f0ce793, 0xff800000),
    (0x5625add3, 0xd625a121, 0xecd662a1),
    (0xc2b17c82, 0x4434bdb8, 0xc77a9e27),
    (0xca235c58, 0x43f6bdf0, 0xce9d73f0),
    (0x43bae2db, 0x43baeb01, 0x48087462),
    (0xc142a4bc, 0x4142aab5, 0xc31402a1),
    (0x7021fa83, 0x7021fb67, 0x7f800000),
    (0x4451513b, 0xb8e83470, 0xbdbddc7d),
    (0x3a06e3c0, 0x3a06e8a7, 0x348e2b99),
    (0xf2369837, 0x72369777, 0xff800000),
    (0xcad654ac, 0xcab67a46, 0x5618c691),
    (0xc458b6f1, 0xc458ba26, 0x493777f0),
    (0xb919eaa4, 0xc4357138, 0x3dda2df0),
    (0xc463b1d1, 0x7126f7a6, 0xf6148191),
    (0xfb13857c, 0x707384ce, 0xff800000),
    (0x70c84fee, 0xbf049b40, 0xf04f8562),
];

const MUL_SPECIALS: &[(u32, u32, u32)] = &[
    (0x3fc00000, 0x3fc00000, 0x40100000),
    (0x3fc00000, 0xc0200000, 0xc0700000),
    (0x3fc00000, 0x00000000, 0x00000000),
    (0x3fc00000, 0x80000000, 0x80000000),
    (0x3fc00000, 0x7f800000, 0x7f800000),
    (0x3fc00000, 0xff800000, 0xff800000),
    (0x3fc00000, 0x7fc00001, 0x7fc00000),
    (0x3fc00000, 0x00800000, 0x00c00000),
    (0x3fc00000, 0x80800000, 0x80c00000),
    (0x3fc00000, 0x7f7fffff, 0x7f800000),
    (0x3fc00000, 0xff7fffff, 0xff800000),
    (0xc0200000, 0x3fc00000, 0xc0700000),
    (0xc0200000, 0xc0200000, 0x40c80000),
    (0xc0200000, 0x00000000, 0x80000000),
    (0xc0200000, 0x80000000, 0x00000000),
    (0xc0200000, 0x7f800000, 0xff800000),
    (0xc0200000, 0xff800000, 0x7f800000),
    (0xc0200000, 0x7fc00001, 0x7fc00000),
    (0xc0200000, 0x00800000, 0x81200000),
    (0xc0200000, 0x80800000, 0x01200000),
    (0xc0200000, 0x7f7fffff, 0xff800000),
    (0xc0200000, 0xff7fffff, 0x7f800000),
    (0x00000000, 0x3fc00000, 0x00000000),
    (0x00000000, 0xc0200000, 0x80000000),
    (0x00000000, 0x00000000, 0x00000000),
    (0x00000000, 0x80000000, 0x80000000),
    (0x00000000, 0x7f800000, 0x7fc00000),
    (0x00000000, 0xff800000, 0x7fc00000),
    (0x00000000, 0x7fc00001, 0x7fc00000),
    (0x00000000, 0x00800000, 0x00000000),
    (0x00000000, 0x80800000, 0x80000000),
    (0x00000000, 0x7f7fffff, 0x00000000),
    (0x00000000, 0xff7fffff, 0x80000000),
    (0x80000000, 0x3fc00000, 0x80000000),
    (0x80000000, 0xc0200000, 0x00000000),
    (0x80000000, 0x00000000, 0x80000000),
    (0x80000000, 0x80000000, 0x00000000),
    (0x80000000, 0x7f800000, 0x7fc00000),
    (0x80000000, 0xff800000, 0x7fc00000),
    (0x80000000, 0x7fc00001, 0x7fc00000),
    (0x80000000, 0x00800000, 0x80000000),
    (0x80000000, 0x80800000, 0x00000000),
    (0x80000000, 0x7f7fffff, 0x80000000),
    (0x80000000, 0xff7fffff, 0x00000000),
    (0x7f800000, 0x3fc00000, 0x7f800000),
    (0x7f800000, 0xc0200000, 0xff800000),
    (0x7f800000, 0x00000000, 0x7fc00000),
    (0x7f800000, 0x80000000, 0x7fc00000),
    (0x7f800000, 0x7f800000, 0x7f800000),
    (0x7f800000, 0xff800000, 0xff800000),
    (0x7f800000, 0x7fc00001, 0x7fc00000),
    (0x7f800000, 0x00800000, 0x7f800000),
    (0x7f800000, 0x80800000, 0xff800000),
    (0x7f800000, 0x7f7fffff, 0x7f800000),
    (0x7f800000, 0xff7fffff, 0xff800000),
    (0xff800000, 0x3fc00000, 0xff800000),
    (0xff800000, 0xc0200000, 0x7f800000),
    (0xff800000, 0x00000000, 0x7fc00000),
    (0xff800000, 0x80000000, 0x7fc00000),
    (0xff800000, 0x7f800000, 0xff800000),
    (0xff800000, 0xff800000, 0x7f800000),
    (0xff800000, 0x7fc00001, 0x7fc00000),
    (0xff800000, 0x00800000, 0xff800000),
    (0xff800000, 0x80800000, 0x7f800000),
    (0xff800000, 0x7f7fffff, 0xff800000),
    (0xff800000, 0xff7fffff, 0x7f800000),
    (0x7fc00001, 0x3fc00000, 0x7fc00000),
    (0x7fc00001, 0xc0200000, 0x7fc00000),
    (0x7fc00001, 0x00000000, 0x7fc00000),
    (0x7fc00001, 0x80000000, 0x7fc00000),
    (0x7fc00001, 0x7f800000, 0x7fc00000),
    (0x7fc00001, 0xff800000, 0x7fc00000),
    (0x7fc00001, 0x7fc00001, 0x7fc00000),
    (0x7fc00001, 0x00800000, 0x7fc00000),
    (0x7fc00001, 0x80800000, 0x7fc00000),
    (0x7fc00001, 0x7f7fffff, 0x7fc00000),
    (0x7fc00001, 0xff7fffff, 0x7fc00000),
    (0x00800000, 0x3fc00000, 0x00c00000),
    (0x00800000, 0xc0200000, 0x81200000),
    (0x00800000, 0x00000000, 0x00000000),
    (0x00800000, 0x80000000, 0x80000000),
    (0x00800000, 0x7f800000, 0x7f800000),
    (0x00800000, 0xff800000, 0xff800000),
    (0x00800000, 0x7fc00001, 0x7fc00000),
    (0x00800000, 0x00800000, 0x00000000),
    (0x00800000, 0x80800000, 0x80000000),
    (0x00800000, 0x7f7fffff, 0x407fffff),
    (0x00800000, 0xff7fffff, 0xc07fffff),
    (0x80800000, 0x3fc00000, 0x80c00000),
    (0x80800000, 0xc0200000, 0x01200000),
    (0x80800000, 0x00000000, 0x80000000),
    (0x80800000, 0x80000000, 0x00000000),
    (0x80800000, 0x7f800000, 0xff800000),
    (0x80800000, 0xff800000, 0x7f800000),
    (0x80800000, 0x7fc00001, 0x7fc00000),
    (0x80800000, 0x00800000, 0x80000000),
    (0x80800000, 0x80800000, 0x00000000),
    (0x80800000, 0x7f7fffff, 0xc07fffff),
    (0x80800000, 0xff7fffff, 0x407fffff),
    (0x7f7fffff, 0x3fc00000, 0x7f800000),
    (0x7f7fffff, 0xc0200000, 0xff800000),
    (0x7f7fffff, 0x00000000, 0x00000000),
    (0x7f7fffff, 0x80000000, 0x80000000),
    (0x7f7fffff, 0x7f800000, 0x7f800000),
    (0x7f7fffff, 0xff800000, 0xff800000),
    (0x7f7fffff, 0x7fc00001, 0x7fc00000),
    (0x7f7fffff, 0x00800000, 0x407fffff),
    (0x7f7fffff, 0x80800000, 0xc07fffff),
    (0x7f7fffff, 0x7f7fffff, 0x7f800000),
    (0x7f7fffff, 0xff7fffff, 0xff800000),
    (0xff7fffff, 0x3fc00000, 0xff800000),
    (0xff7fffff, 0xc0200000, 0x7f800000),
    (0xff7fffff, 0x00000000, 0x80000000),
    (0xff7fffff, 0x80000000, 0x00000000),
    (0xff7fffff, 0x7f800000, 0xff800000),
    (0xff7fffff, 0xff800000, 0x7f800000),
    (0xff7fffff, 0x7fc00001, 0x7fc00000),
    (0xff7fffff, 0x00800000, 0xc07fffff),
    (0xff7fffff, 0x80800000, 0x407fffff),
    (0xff7fffff, 0x7f7fffff, 0xff800000),
    (0xff7fffff, 0xff7fffff, 0x7f800000),
];

const DIV: &[(u32, u32, u32)] = &[
    (0xf13aefa8, 0xf13ae5a3, 0x3f8006dc),
    (0x399d86c8, 0xb99d82b3, 0xbf800351),
    (0x44700d9f, 0xba6edcb4, 0xc980a365),
    (0xf119c491, 0x392e7000, 0xf761aa6d),
    (0xb9dbd155, 0xc4210adc, 0x352eb743),
    (0xb976ac4a, 0xca222ab0, 0x2ec2b3a3),
    (0xb9196787, 0x39196514, 0xbf80020b),
    (0xc402fc90, 0xc44a8f26, 0x3f258b66),
    (0x442e7bdb, 0x442e77ad, 0x3f800311),
    (0xc410e1f7, 0xc410eef8, 0x3f7fe907),
    (0xb7fdc0b7, 0x3bb25454, 0xbbb62308),
    (0x3a1cd538, 0x442e9385, 0x3565fb22),
    (0xc4788f6e, 0xc4788c74, 0x3f800188),
    (0x44125d1e, 0x767ac80e, 0x0d1568d0),
    (0x438a5ea0, 0x438a577f, 0x3f800698),
    (0x71073f0d, 0xb9e9247a, 0xf6948187),
    (0xc45b6d73, 0xc45b6f95, 0x3f7ffd83),
    (0xc260f40d, 0xc3a548d4, 0x3e2e3579),
    (0xefd5434f, 0x3965c30a, 0xf5ed9dee),
    (0xf065647a, 0x4adc4e22, 0xe50547a2),
    (0xf0f75151, 0x4407d045, 0xec6916ce),
    (0x6256437d, 0x62564c2e, 0x3f7ff59e),
    (0xb9933d18, 0x43d87db6, 0xb52e1bf7),
    (0xee87b64e, 0x444c2e67, 0xe9aa277b),
    (0xf1165663, 0xc45414f3, 0x6c357831),
    (0xba50c66f, 0x4335df7e, 0xb692eef1),
    (0xf022c9e1, 0xf02476a8, 0x3f7d6493),
    (0x3a7d398d, 0x3a7d35f2, 0x3f8001d2),
    (0xb5bca70d, 0xba1995e2, 0x3b1d39ae),
    (0xc4777afe, 0x44777126, 0xbf800517),
    (0x3959ccea, 0xb959c3a5, 0xbf800572),
    (0x398834ac, 0x3a458d9b, 0x3eb080b3),
    (0x7142840d, 0x71428eb7, 0x3f7ff1f7),
    (0x440a6082, 0x6ff92085, 0x138e31ce),
    (0xc9312df4, 0x446632f8, 0xc44509b5),
    (0xc3b2fb49, 0x43b2f82b, 0xbf80023a),
    (0x702b8012, 0x88f143da, 0xff800000),
    (0xf09f58f2, 0x440b768f, 0xec123ffb),
    (0x6c10c749, 0xec10c592, 0xbf800184),
    (0x3a148a17, 0xba148e11, 0xbf7ff925),
    (0x6d8e10fd, 0xf1254952, 0xbbdc0942),
    (0x42e58eb2, 0x42e58829, 0x3f8003a4),
    (0x6f458171, 0xef458ead, 0xbf7feed9),
    (0xf13bab98, 0xf13ba718, 0x3f800311),
    (0xba649114, 0x43e07cbf, 0xb6025377),
    (0x70b5be1b, 0xc3c0bbe0, 0xec716697),
    (0xcb2885bb, 0xc4612cfd, 0x463f9764),
    (0xc3e73ec3, 0x38a84579, 0xcaafe713),
    (0xf130199a, 0x713013ce, 0xbf800436),
    (0x4437348b, 0x44235a48, 0x3f8f8e5c),
    (0xcaedf100, 0x4aedf359, 0xbf7ffd79),
    (0x393ea7bb, 0xc1996783, 0xb71f14fc),
    (0xba0d5b07, 0xb9ca9ff7, 0x3fb2975c),
    (0x712e88ca, 0x50a780e9, 0x60055f66),
    (0x4477a84a, 0x4477adfa, 0x3f7ffa1f),
    (0x43b13c17, 0x7129cf53, 0x120598c4),
    (0x6f856486, 0xef856ac4, 0xbf7ff405),
    (0xdb42084c, 0x5b420c17, 0xbf7ffafe),
    (0xef5f1e0b, 0xc36612a4, 0x6b7842be),
    (0xc4233f60, 0xf6fa8ebc, 0x0ca6cb23),
    (0x39f6a8ac, 0x39f6adfb, 0x3f7ffa7d),
    (0x4b0e4ae8, 0xc3c8a281, 0xc6b58eeb),
    (0x38c9058b, 0xc995cf10, 0xaeabc1e2),
    (0x49e54450, 0x4abecbc6, 0x3e99cf20),
    (0x5bd1bf6c, 0xfc9997fe, 0x9eaecc03),
    (0xf0862ba8, 0xf0862b6c, 0x3f800039),
    (0xb9de967f, 0x39de9bc8, 0xbf7ff9ec),
    (0x70989458, 0x41de6235, 0x6e2fa4db),
    (0xde4cfe00, 0xde4cf552, 0x3f80056b),
    (0xce7ac9b4, 0xefab4c57, 0x1e3b65c1),
    (0x43e761db, 0x43e76e58, 0x3f7ff22f),
    (0xe02ce59c, 0x602ceb6e, 0xbf7ff762),
    (0x44155ea9, 0x4412e6cf, 0x3f82268d),
    (0x445cbbbd, 0x441e103a, 0x3fb2c010),
    (0x096f21db, 0x441dbe64, 0x04c20ac9),
    (0xc3d48584, 0xc3d4893e, 0x3f7ffb82),
    (0x3a288b06, 0x4b02a9e3, 0x2ea51b75),
    (0xcfd8d57c, 0xcfd8d119, 0x3f800296),
    (0x4217bb88, 0x4217b878, 0x3f800295),
    (0xcd04856f, 0x4d04827b, 0xbf8002da),
    (0x4b0155b7, 0xc4613e4b, 0xc612fecd),
    (0x61acea51, 0x61acea71, 0x3f7fffd0),
    (0xb9be4db8, 0x09ca0c69, 0xef711e74),
    (0x446ddb65, 0x446dd95c, 0x3f800118),
    (0x445ed2b7, 0x4345738d, 0x4090728f),
    (0x8df5b43c, 0xc97d4050, 0x03f85ef3),
    (0xc42f6b3f, 0x37bf4406, 0xcbeaca32),
    (0xc3c7f89e, 0xf04c2a10, 0x12fabe03),
    (0x70f515d9, 0x44284667, 0x6c3a6d30),
    (0x445cdc44, 0x3a65eb3d, 0x4975e9f8),
    (0xc3efec2b, 0x3975917d, 0xc9fa1d48),
    (0xc1f51486, 0xc392c490, 0x3dd5bda0),
    (0x440f2046, 0xc40f2eb3, 0xbf7fe635),
    (0x88ddc045, 0xc40e4619, 0x044780e9),
    (0x7e85aef2, 0xc3a65411, 0xfa4dc15a),
    (0x40283b87, 0x40283584, 0x3f800493),
    (0xf05b18f6, 0xf1277d70, 0x3ea77092),
    (0xa8b3d95e, 0x434aa00d, 0xa4e3396b),
    (0x440b6c9e, 0x440b6e89, 0x3f7ffc7a),
    (0xedba2695, 0xb9b000e6, 0x7387612f),
    (0xc53335e7, 0xc5333cb8, 0x3f7ff643),
    (0x4b42a452, 0x4456970e, 0x466833ce),
    (0xc2a77418, 0x42a77aed, 0xbf7ff58e),
    (0xc3c53b76, 0x43c53a8e, 0xbf800096),
    (0xca59c4a0, 0xc18d65c4, 0x48452266),
    (0xc46700c5, 0xb8f74f53, 0x4aef1ec1),
    (0x4b120c36, 0x4b120752, 0x3f800449),
    (0x4a8509d4, 0xb965d2f0, 0xd09430e0),
    (0x445a1236, 0x4370c394, 0x4067df01),
    (0x4b2620ec, 0x4b2627a0, 0x3f7ff5ac),
    (0x42bb154b, 0xeff3164a, 0x92450569),
    (0x43ac4f23, 0xc4333d71, 0xbef619d8),
    (0x1d407ec1, 0x9d407c5e, 0xbf800196),
    (0xf0448b0d, 0x443e5818, 0xeb842b2c),
    (0x43bfb07d, 0xef4a061b, 0x93f2e788),
    (0xc436c19b, 0x440c7bfd, 0xbfa683f0),
    (0xba73f0ec, 0x0df6dfc0, 0xebfcf56a),
    (0xc25269c3, 0x42526b71, 0xbf7ffdf4),
    (0x43db3e40, 0xc3db3242, 0xbf800700),
    (0xba114a13, 0x4b3b0e88, 0xae46d6a3),
    (0xba6d8760, 0xba6d8db6, 0x3f7ff92c),
    (0x435422da, 0xc373b7f3, 0xbf5ed37a),
    (0x5e95af75, 0x5e95a0a1, 0x3f800caf),
    (0xc3c69e5a, 0x43c691f7, 0xbf8007fc),
    (0x441e210f, 0x3a5a34c7, 0x49398479),
    (0x44281625, 0xc428155f, 0xbf800096),
    (0xefa282a0, 0x6fa28ac0, 0xbf7ff334),
    (0x43f50dca, 0xa8796612, 0xdafb8a47),
    (0xf125ba1b, 0x7125b141, 0xbf8006d6),
    (0xca96c658, 0xca96c9b9, 0x3f7ffa43),
    (0x44195998, 0xb988c4f7, 0xca0f8478),
    (0xc4020d0c, 0xc4020541, 0x3f8007ab),
    (0xc3d139b7, 0x5a312c07, 0xa917284b),
    (0xcae7be56, 0xed31b954, 0x1d26e7e6),
    (0xba2a8b24, 0x43911915, 0xb6167275),
    (0x43857e11, 0xba585444, 0xc89df8f8),
    (0xfa84c686, 0xc40d5c73, 0x75f073a2),
    (0xc2dd0ead, 0xc416e883, 0x3e3b8011),
    (0x3a45b810, 0x3a45b4fc, 0x3f8001fe),
    (0x70c409ca, 0x4472dd34, 0x6bcea437),
    (0xbd3fec2b, 0xf0dc7c75, 0x0bded5ea),
    (0x713da8da, 0xf111c1a2, 0xbfa68e07),
    (0xb9d0eb28, 0xc21ea9dc, 0x37288aee),
    (0x3a1d34d6, 0x43d9d6f1, 0x35b8bec9),
    (0xc4316261, 0x4b660894, 0xb845685d),
    (0x884e2f73, 0x884e2813, 0x3f800494),
    (0xba08c534, 0xba08c1a7, 0x3f800352),
    (0x7100c7ad, 0x7100c457, 0x3f800350),
    (0x4419b580, 0x9595a6f4, 0xee037849),
    (0x4416e921, 0x70fa0485, 0x129a8587),
];

const DIV_SPECIALS: &[(u32, u32, u32)] = &[
    (0x3fc00000, 0x3fc00000, 0x3f800000),
    (0x3fc00000, 0xc0200000, 0xbf199999),
    (0x3fc00000, 0x00000000, 0x7f800000),
    (0x3fc00000, 0x80000000, 0xff800000),
    (0x3fc00000, 0x7f800000, 0x00000000),
    (0x3fc00000, 0xff800000, 0x80000000),
    (0x3fc00000, 0x7fc00001, 0x7fc00000),
    (0x3fc00000, 0x00800000, 0x7ec00000),
    (0x3fc00000, 0x80800000, 0xfec00000),
    (0x3fc00000, 0x7f7fffff, 0x00000000),
    (0x3fc00000, 0xff7fffff, 0x80000000),
    (0xc0200000, 0x3fc00000, 0xbfd55555),
    (0xc0200000, 0xc0200000, 0x3f800000),
    (0xc0200000, 0x00000000, 0xff800000),
    (0xc0200000, 0x80000000, 0x7f800000),
    (0xc0200000, 0x7f800000, 0x80000000),
    (0xc0200000, 0xff800000, 0x00000000),
    (0xc0200000, 0x7fc00001, 0x7fc00000),
    (0xc0200000, 0x00800000, 0xff200000),
    (0xc0200000, 0x80800000, 0x7f200000),
    (0xc0200000, 0x7f7fffff, 0x80000000),
    (0xc0200000, 0xff7fffff, 0x00000000),
    (0x00000000, 0x3fc00000, 0x00000000),
    (0x00000000, 0xc0200000, 0x80000000),
    (0x00000000, 0x00000000, 0x7fc00000),
    (0x00000000, 0x80000000, 0x7fc00000),
    (0x00000000, 0x7f800000, 0x00000000),
    (0x00000000, 0xff800000, 0x80000000),
    (0x00000000, 0x7fc00001, 0x7fc00000),
    (0x00000000, 0x00800000, 0x00000000),
    (0x00000000, 0x80800000, 0x80000000),
    (0x00000000, 0x7f7fffff, 0x00000000),
    (0x00000000, 0xff7fffff, 0x80000000),
    (0x80000000, 0x3fc00000, 0x80000000),
    (0x80000000, 0xc0200000, 0x00000000),
    (0x80000000, 0x00000000, 0x7fc00000),
    (0x80000000, 0x80000000, 0x7fc00000),
    (0x80000000, 0x7f800000, 0x80000000),
    (0x80000000, 0xff800000, 0x00000000),
    (0x80000000, 0x7fc00001, 0x7fc00000),
    (0x80000000, 0x00800000, 0x80000000),
    (0x80000000, 0x80800000, 0x00000000),
    (0x80000000, 0x7f7fffff, 0x80000000),
    (0x80000000, 0xff7fffff, 0x00000000),
    (0x7f800000, 0x3fc00000, 0x7f800000),
    (0x7f800000, 0xc0200000, 0xff800000),
    (0x7f800000, 0x00000000, 0x7f800000),
    (0x7f800000, 0x80000000, 0xff800000),
    (0x7f800000, 0x7f800000, 0x7fc00000),
    (0x7f800000, 0xff800000, 0x7fc00000),
    (0x7f800000, 0x7fc00001, 0x7fc00000),
    (0x7f800000, 0x00800000, 0x7f800000),
    (0x7f800000, 0x80800000, 0xff800000),
    (0x7f800000, 0x7f7fffff, 0x7f800000),
    (0x7f800000, 0xff7fffff, 0xff800000),
    (0xff800000, 0x3fc00000, 0xff800000),
    (0xff800000, 0xc0200000, 0x7f800000),
    (0xff800000, 0x00000000, 0xff800000),
    (0xff800000, 0x80000000, 0x7f800000),
    (0xff800000, 0x7f800000, 0x7fc00000),
    (0xff800000, 0xff800000, 0x7fc00000),
    (0xff800000, 0x7fc00001, 0x7fc00000),
    (0xff800000, 0x00800000, 0xff800000),
    (0xff800000, 0x80800000, 0x7f800000),
    (0xff800000, 0x7f7fffff, 0xff800000),
    (0xff800000, 0xff7fffff, 0x7f800000),
    (0x7fc00001, 0x3fc00000, 0x7fc00000),
    (0x7fc00001, 0xc0200000, 0x7fc00000),
    (0x7fc00001, 0x00000000, 0x7fc00000),
    (0x7fc00001, 0x80000000, 0x7fc00000),
    (0x7fc00001, 0x7f800000, 0x7fc00000),
    (0x7fc00001, 0xff800000, 0x7fc00000),
    (0x7fc00001, 0x7fc00001, 0x7fc00000),
    (0x7fc00001, 0x00800000, 0x7fc00000),
    (0x7fc00001, 0x80800000, 0x7fc00000),
    (0x7fc00001, 0x7f7fffff, 0x7fc00000),
    (0x7fc00001, 0xff7fffff, 0x7fc00000),
    (0x00800000, 0x3fc00000, 0x00000000),
    (0x00800000, 0xc0200000, 0x80000000),
    (0x00800000, 0x00000000, 0x7f800000),
    (0x00800000, 0x80000000, 0xff800000),
    (0x00800000, 0x7f800000, 0x00000000),
    (0x00800000, 0xff800000, 0x80000000),
    (0x00800000, 0x7fc00001, 0x7fc00000),
    (0x00800000, 0x00800000, 0x3f800000),
    (0x00800000, 0x80800000, 0xbf800000),
    (0x00800000, 0x7f7fffff, 0x00000000),
    (0x00800000, 0xff7fffff, 0x80000000),
    (0x80800000, 0x3fc00000, 0x80000000),
    (0x80800000, 0xc0200000, 0x00000000),
    (0x80800000, 0x00000000, 0xff800000),
    (0x80800000, 0x80000000, 0x7f800000),
    (0x80800000, 0x7f800000, 0x80000000),
    (0x80800000, 0xff800000, 0x00000000),
    (0x80800000, 0x7fc00001, 0x7fc00000),
    (0x80800000, 0x00800000, 0xbf800000),
    (0x80800000, 0x80800000, 0x3f800000),
    (0x80800000, 0x7f7fffff, 0x80000000),
    (0x80800000, 0xff7fffff, 0x00000000),
    (0x7f7fffff, 0x3fc00000, 0x7f2aaaaa),
    (0x7f7fffff, 0xc0200000, 0xfecccccc),
    (0x7f7fffff, 0x00000000, 0x7f800000),
    (0x7f7fffff, 0x80000000, 0xff800000),
    (0x7f7fffff, 0x7f800000, 0x00000000),
    (0x7f7fffff, 0xff800000, 0x80000000),
    (0x7f7fffff, 0x7fc00001, 0x7fc00000),
    (0x7f7fffff, 0x00800000, 0x7f800000),
    (0x7f7fffff, 0x80800000, 0xff800000),
    (0x7f7fffff, 0x7f7fffff, 0x3f800000),
    (0x7f7fffff, 0xff7fffff, 0xbf800000),
    (0xff7fffff, 0x3fc00000, 0xff2aaaaa),
    (0xff7fffff, 0xc0200000, 0x7ecccccc),
    (0xff7fffff, 0x00000000, 0xff800000),
    (0xff7fffff, 0x80000000, 0x7f800000),
    (0xff7fffff, 0x7f800000, 0x80000000),
    (0xff7fffff, 0xff800000, 0x00000000),
    (0xff7fffff, 0x7fc00001, 0x7fc00000),
    (0xff7fffff, 0x00800000, 0xff800000),
    (0xff7fffff, 0x80800000, 0x7f800000),
    (0xff7fffff, 0x7f7fffff, 0xbf800000),
    (0xff7fffff, 0xff7fffff, 0x3f800000),
];

const CMP: &[(u32, u32, u32)] = &[
    (0x440fd355, 0xc385a2f0, 0x00000001),
    (0x43f55e65, 0xb98aabe4, 0x00000001),
    (0x4e39421b, 0x434c9545, 0x00000001),
    (0xc43b5303, 0x443b58ea, 0xffffffff),
    (0x38906ea7, 0x39ecfe81, 0xffffffff),
    (0xc15f2029, 0xc44f4610, 0x00000001),
    (0x39916a5c, 0x047a9204, 0x00000001),
    (0x3a0084b3, 0x43cda83c, 0xffffffff),
    (0xc3a4f11e, 0x444506b8, 0xffffffff),
    (0x3a062e32, 0xc3ff1abd, 0x00000001),
    (0x444606eb, 0xc459203f, 0x00000001),
    (0x4ad22c1a, 0x4438dac7, 0x00000001),
    (0x6f2f646b, 0xcb52ab39, 0x00000001),
    (0xb29f36ae, 0x329f315e, 0xffffffff),
    (0xc47563fc, 0x39101f7b, 0xffffffff),
    (0x43d92ee6, 0x43cbe179, 0x00000001),
    (0xba802e2a, 0xcab00f90, 0x00000001),
    (0x0de59327, 0x43c6d9b0, 0xffffffff),
    (0xbb4a4b7d, 0xf1119533, 0x00000001),
    (0x3c24f14e, 0x3c24fa96, 0xffffffff),
    (0xb7949937, 0xb794913c, 0xffffffff),
    (0xc4216c9a, 0xc3c4645c, 0xffffffff),
    (0x4345a8bd, 0x422cf266, 0x00000001),
    (0xc469b89f, 0xc469b69d, 0xffffffff),
    (0xf1217e0f, 0xc46645d3, 0xffffffff),
    (0xefce0fc3, 0xefce0235, 0xffffffff),
    (0xf0c54e83, 0xf128d9ae, 0x00000001),
    (0x7054eb8a, 0xf054e981, 0x00000001),
    (0x43b9f734, 0xc3b9f6ee, 0x00000001),
    (0x445f538b, 0xc4255d49, 0x00000001),
    (0xba7a15da, 0x3a08e54c, 0xffffffff),
    (0x43c918ce, 0x436612cc, 0x00000001),
    (0x5c658cbb, 0xeff326dd, 0x00000001),
    (0x780c16c4, 0x444792a5, 0x00000001),
    (0x19f8d6ca, 0x4b25a6c4, 0xffffffff),
    (0x42f2bf0f, 0xc43f6c15, 0x00000001),
    (0x43d21951, 0x43a6ff3e, 0x00000001),
    (0xcf6fa2df, 0x4f6faffc, 0xffffffff),
    (0x70f77039, 0x70f77795, 0xffffffff),
    (0x39a33a4a, 0xf05b1c0c, 0x00000001),
    (0xc3f862e1, 0xc42df9f4, 0x00000001),
    (0xcb283c80, 0xa5f52133, 0xffffffff),
    (0xc4718a72, 0x4431cd9f, 0xffffffff),
    (0x4b5944ac, 0xe1607025, 0x00000001),
    (0xf0fe0350, 0x70fe0329, 0xffffffff),
    (0xf011b763, 0xc4543836, 0xffffffff),
    (0x712aa865, 0xc46bb26f, 0x00000001),
    (0xc31a9ea0, 0xf0b33a53, 0x00000001),
    (0xf083ec86, 0x9cf4ee7e, 0xffffffff),
    (0xf00c0780, 0xc3d59279, 0xffffffff),
    (0x506a7280, 0xc31831fb, 0x00000001),
    (0x4424d0d6, 0x4424dc08, 0xffffffff),
    (0x43b77689, 0xf0b0e44d, 0x00000001),
    (0x440c3619, 0x3a068b24, 0x00000001),
    (0xc3f150d0, 0x439eccb0, 0xffffffff),
    (0xef8fae2a, 0x6f8fa9dd, 0xffffffff),
    (0x441ae02e, 0x3a76a235, 0x00000001),
    (0x7ae06607, 0x7ae06fa7, 0xffffffff),
    (0xc345601f, 0xc4167959, 0x00000001),
    (0xb3c54179, 0x33c54456, 0xffffffff),
    (0xc3de1778, 0xf0aec322, 0x00000001),
    (0x62cdcc67, 0xe2cdc8a3, 0x00000001),
    (0x4b061998, 0xc2134e42, 0x00000001),
    (0xc307b0e0, 0x4307b611, 0xffffffff),
    (0x43a4ba43, 0xcb1906b3, 0x00000001),
    (0xb9d8a9f9, 0x39d8a6be, 0xffffffff),
    (0x7098d833, 0xc3c733bd, 0x00000001),
    (0xba812b76, 0xc00353d2, 0x00000001),
    (0xba2960bf, 0x6fe97732, 0xffffffff),
    (0x48d1f2a0, 0x4399ae90, 0x00000001),
    (0xf0e5aed6, 0xefedeeb9, 0xffffffff),
    (0xb9d9fca9, 0x39d9f62f, 0xffffffff),
    (0x43807e23, 0xc3ae307f, 0x00000001),
    (0xcf239f2a, 0x43aaf8da, 0xffffffff),
    (0x4a1d88a0, 0xc32ff746, 0x00000001),
    (0x39eeba7a, 0x7026bb4b, 0xffffffff),
    (0xb9c22fe9, 0x44010f36, 0xffffffff),
    (0xc398d4ae, 0x4398de00, 0xffffffff),
    (0xc10e6afc, 0x410e6f2c, 0xffffffff),
    (0x431e01cb, 0x44365d22, 0xffffffff),
    (0x43915bd0, 0x3a722b02, 0x00000001),
    (0xf121ca80, 0xae50395e, 0xffffffff),
    (0xf0d2ce1c, 0x981ceff5, 0xffffffff),
    (0x43e9e0c9, 0xcabac2a4, 0x00000001),
    (0xcb520aa8, 0x4b52080a, 0xffffffff),
    (0x70a37844, 0x70a3738b, 0x00000001),
    (0x44719713, 0xf09126cb, 0x00000001),
    (0xc42d4bba, 0xc42d4e4a, 0x00000001),
    (0x4460e8a0, 0x446f7e54, 0xffffffff),
    (0xf6301883, 0x4333a202, 0xffffffff),
    (0x43e0d627, 0x446f4cb9, 0xffffffff),
    (0xc449947c, 0x3995087c, 0xffffffff),
    (0xcb3957cd, 0xf11677e4, 0x00000001),
    (0xca88aaf4, 0xba285e57, 0xffffffff),
    (0xc22bfbc4, 0xc22bfb5d, 0xffffffff),
    (0x3a065371, 0x436b6209, 0xffffffff),
    (0xba012dfa, 0xba5bda52, 0x00000001),
    (0x67b9d9c2, 0x439a2416, 0x00000001),
    (0xb84d5939, 0x4406f1e0, 0xffffffff),
    (0x4b704080, 0xc30df211, 0x00000001),
    (0xf1274184, 0x9777ed07, 0xffffffff),
    (0xc3d00b9f, 0xc4302198, 0x00000001),
    (0xb95623f5, 0x395625a8, 0xffffffff),
    (0xf1307d2c, 0x71307aef, 0xffffffff),
    (0xba730c40, 0xba7301a8, 0xffffffff),
    (0xc458b32a, 0x43ed9edf, 0xffffffff),
    (0xb9675c76, 0x39675d0d, 0xffffffff),
    (0xf0dc2ea6, 0x0795aab2, 0xffffffff),
    (0xfb1271b0, 0xc3e3ba98, 0xffffffff),
    (0xf12476ee, 0x71247b09, 0xffffffff),
    (0xc37143d5, 0x4371440e, 0xffffffff),
    (0x51bfc36a, 0xc230080e, 0x00000001),
    (0x43f05e35, 0x43f058e6, 0x00000001),
    (0x445e3fec, 0xf146a3ad, 0x00000001),
    (0xc1e93e22, 0x4b6a2824, 0xffffffff),
    (0xba02e161, 0xc3da8aac, 0x00000001),
    (0xb8b3ad2e, 0x446a8cf7, 0xffffffff),
    (0x979cec95, 0x3a6a02bb, 0xffffffff),
    (0xc3f0d505, 0x7101b299, 0xffffffff),
    (0x713a8a8d, 0x428cd0b3, 0x00000001),
    (0x4450469b, 0xe49403c7, 0x00000001),
    (0x39e152b8, 0x39e1514e, 0x00000001),
    (0xcf95b626, 0x43c88381, 0xffffffff),
    (0x43d3811b, 0x43d38ab4, 0xffffffff),
    (0x43710f30, 0xaf70e0d6, 0x00000001),
    (0x4425d263, 0xcb486176, 0x00000001),
    (0x42e19866, 0xba28a603, 0x00000001),
    (0xcae9108c, 0xc36758f7, 0xffffffff),
    (0xc3ceac9e, 0x43cea0ac, 0xffffffff),
    (0x80929b80, 0x80929e82, 0x00000001),
    (0x447998f8, 0xba09aa73, 0x00000001),
    (0xc3c85e08, 0xc3c8559d, 0xffffffff),
    (0x43d62a43, 0xba42c1ce, 0x00000001),
    (0x405d4381, 0xc05d4ed4, 0x00000001),
    (0x62a90188, 0xe2a900ab, 0x00000001),
    (0x441acb65, 0x71f87547, 0xffffffff),
    (0xc3f69797, 0x444ce6a3, 0xffffffff),
    (0x708b742a, 0xf08b76b7, 0x00000001),
    (0xc3eee023, 0x43eee1ff, 0xffffffff),
    (0x498ef920, 0xc423c34f, 0x00000001),
    (0x438af5a4, 0xbe8ea51b, 0x00000001),
    (0x39801c97, 0xc8d49cb5, 0x00000001),
    (0xcb69a2af, 0xc229f3a5, 0xffffffff),
    (0xc45cfb37, 0x445cfb0c, 0xffffffff),
    (0xc2526ec1, 0x425263d5, 0xffffffff),
    (0xf0e76697, 0x441980c6, 0xffffffff),
    (0xf9d8ebbd, 0xcb4bd39d, 0xffffffff),
    (0x435b05a9, 0x44229c8a, 0xffffffff),
    (0xc430b419, 0xc430b3ec, 0xffffffff),
    (0x38b5f4f6, 0x417470b9, 0xffffffff),
];

const CMP_SPECIALS: &[(u32, u32, u32)] = &[
    (0x3fc00000, 0x3fc00000, 0x00000000),
    (0x3fc00000, 0xc0200000, 0x00000001),
    (0x3fc00000, 0x00000000, 0x00000001),
    (0x3fc00000, 0x80000000, 0x00000001),
    (0x3fc00000, 0x7f800000, 0xffffffff),
    (0x3fc00000, 0xff800000, 0x00000001),
    (0x3fc00000, 0x7fc00001, 0xfffffffe),
    (0x3fc00000, 0x00800000, 0x00000001),
    (0x3fc00000, 0x80800000, 0x00000001),
    (0x3fc00000, 0x7f7fffff, 0xffffffff),
    (0x3fc00000, 0xff7fffff, 0x00000001),
    (0xc0200000, 0x3fc00000, 0xffffffff),
    (0xc0200000, 0xc0200000, 0x00000000),
    (0xc0200000, 0x00000000, 0xffffffff),
    (0xc0200000, 0x80000000, 0xffffffff),
    (0xc0200000, 0x7f800000, 0xffffffff),
    (0xc0200000, 0xff800000, 0x00000001),
    (0xc0200000, 0x7fc00001, 0xfffffffe),
    (0xc0200000, 0x00800000, 0xffffffff),
    (0xc0200000, 0x80800000, 0xffffffff),
    (0xc0200000, 0x7f7fffff, 0xffffffff),
    (0xc0200000, 0xff7fffff, 0x00000001),
    (0x00000000, 0x3fc00000, 0xffffffff),
    (0x00000000, 0xc0200000, 0x00000001),
    (0x00000000, 0x00000000, 0x00000000),
    (0x00000000, 0x80000000, 0x00000000),
    (0x00000000, 0x7f800000, 0xffffffff),
    (0x00000000, 0xff800000, 0x00000001),
    (0x00000000, 0x7fc00001, 0xfffffffe),
    (0x00000000, 0x00800000, 0xffffffff),
    (0x00000000, 0x80800000, 0x00000001),
    (0x00000000, 0x7f7fffff, 0xffffffff),
    (0x00000000, 0xff7fffff, 0x00000001),
    (0x80000000, 0x3fc00000, 0xffffffff),
    (0x80000000, 0xc0200000, 0x00000001),
    (0x80000000, 0x00000000, 0x00000000),
    (0x80000000, 0x80000000, 0x00000000),
    (0x80000000, 0x7f800000, 0xffffffff),
    (0x80000000, 0xff800000, 0x00000001),
    (0x80000000, 0x7fc00001, 0xfffffffe),
    (0x80000000, 0x00800000, 0xffffffff),
    (0x80000000, 0x80800000, 0x00000001),
    (0x80000000, 0x7f7fffff, 0xffffffff),
    (0x80000000, 0xff7fffff, 0x00000001),
    (0x7f800000, 0x3fc00000, 0x00000001),
    (0x7f800000, 0xc0200000, 0x00000001),
    (0x7f800000, 0x00000000, 0x00000001),
    (0x7f800000, 0x80000000, 0x00000001),
    (0x7f800000, 0x7f800000, 0x00000000),
    (0x7f800000, 0xff800000, 0x00000001),
    (0x7f800000, 0x7fc00001, 0xfffffffe),
    (0x7f800000, 0x00800000, 0x00000001),
    (0x7f800000, 0x80800000, 0x00000001),
    (0x7f800000, 0x7f7fffff, 0x00000001),
    (0x7f800000, 0xff7fffff, 0x00000001),
    (0xff800000, 0x3fc00000, 0xffffffff),
    (0xff800000, 0xc0200000, 0xffffffff),
    (0xff800000, 0x00000000, 0xffffffff),
    (0xff800000, 0x80000000, 0xffffffff),
    (0xff800000, 0x7f800000, 0xffffffff),
    (0xff800000, 0xff800000, 0x00000000),
    (0xff800000, 0x7fc00001, 0xfffffffe),
    (0xff800000, 0x00800000, 0xffffffff),
    (0xff800000, 0x80800000, 0xffffffff),
    (0xff800000, 0x7f7fffff, 0xffffffff),
    (0xff800000, 0xff7fffff, 0xffffffff),
    (0x7fc00001, 0x3fc00000, 0xfffffffe),
    (0x7fc00001, 0xc0200000, 0xfffffffe),
    (0x7fc00001, 0x00000000, 0xfffffffe),
    (0x7fc00001, 0x80000000, 0xfffffffe),
    (0x7fc00001, 0x7f800000, 0xfffffffe),
    (0x7fc00001, 0xff800000, 0xfffffffe),
    (0x7fc00001, 0x7fc00001, 0xfffffffe),
    (0x7fc00001, 0x00800000, 0xfffffffe),
    (0x7fc00001, 0x80800000, 0xfffffffe),
    (0x7fc00001, 0x7f7fffff, 0xfffffffe),
    (0x7fc00001, 0xff7fffff, 0xfffffffe),
    (0x00800000, 0x3fc00000, 0xffffffff),
    (0x00800000, 0xc0200000, 0x00000001),
    (0x00800000, 0x00000000, 0x00000001),
    (0x00800000, 0x80000000, 0x00000001),
    (0x00800000, 0x7f800000, 0xffffffff),
    (0x00800000, 0xff800000, 0x00000001),
    (0x00800000, 0x7fc00001, 0xfffffffe),
    (0x00800000, 0x00800000, 0x00000000),
    (0x00800000, 0x80800000, 0x00000001),
    (0x00800000, 0x7f7fffff, 0xffffffff),
    (0x00800000, 0xff7fffff, 0x00000001),
    (0x80800000, 0x3fc00000, 0xffffffff),
    (0x80800000, 0xc0200000, 0x00000001),
    (0x80800000, 0x00000000, 0xffffffff),
    (0x80800000, 0x80000000, 0xffffffff),
    (0x80800000, 0x7f800000, 0xffffffff),
    (0x80800000, 0xff800000, 0x00000001),
    (0x80800000, 0x7fc00001, 0xfffffffe),
    (0x80800000, 0x00800000, 0xffffffff),
    (0x80800000, 0x80800000, 0x00000000),
    (0x80800000, 0x7f7fffff, 0xffffffff),
    (0x80800000, 0xff7fffff, 0x00000001),
    (0x7f7fffff, 0x3fc00000, 0x00000001),
    (0x7f7fffff, 0xc0200000, 0x00000001),
    (0x7f7fffff, 0x00000000, 0x00000001),
    (0x7f7fffff, 0x80000000, 0x00000001),
    (0x7f7fffff, 0x7f800000, 0xffffffff),
    (0x7f7fffff, 0xff800000, 0x00000001),
    (0x7f7fffff, 0x7fc00001, 0xfffffffe),
    (0x7f7fffff, 0x00800000, 0x00000001),
    (0x7f7fffff, 0x80800000, 0x00000001),
    (0x7f7fffff, 0x7f7fffff, 0x00000000),
    (0x7f7fffff, 0xff7fffff, 0x00000001),
    (0xff7fffff, 0x3fc00000, 0xffffffff),
    (0xff7fffff, 0xc0200000, 0xffffffff),
    (0xff7fffff, 0x00000000, 0xffffffff),
    (0xff7fffff, 0x80000000, 0xffffffff),
    (0xff7fffff, 0x7f800000, 0xffffffff),
    (0xff7fffff, 0xff800000, 0x00000001),
    (0xff7fffff, 0x7fc00001, 0xfffffffe),
    (0xff7fffff, 0x00800000, 0xffffffff),
    (0xff7fffff, 0x80800000, 0xffffffff),
    (0xff7fffff, 0x7f7fffff, 0xffffffff),
    (0xff7fffff, 0xff7fffff, 0x00000000),
];

const FROM_I32: &[(u32, u32)] = &[
    (0x00000000, 0x00000000),
    (0x00000001, 0x3f800000),
    (0xffffffff, 0xbf800000),
    (0x00000002, 0x40000000),
    (0x00000007, 0x40e00000),
    (0xfffffff8, 0xc1000000),
    (0x00ffffff, 0x4b7fffff),
    (0x01000000, 0x4b800000),
    (0x01000001, 0x4b800000),
    (0xfeffffff, 0xcb800000),
    (0x7fffffff, 0x4effffff),
    (0x80000000, 0xcf000000),
    (0x80000001, 0xceffffff),
    (0x075bcd15, 0x4ceb79a2),
    (0xc521974f, 0xce6b79a2),
    (0x93f3e9c8, 0xced8182c),
    (0xca30281c, 0xce573f5f),
    (0x561352ed, 0x4eac26a5),
    (0x7c2683d1, 0x4ef84d07),
    (0x1fd5f2c0, 0x4dfeaf96),
    (0x31942bac, 0x4e4650ae),
    (0xe90d06c8, 0xcdb797c9),
    (0x4d612f7a, 0x4e9ac25e),
    (0x2fcc8a40, 0x4e3f3229),
    (0xbd90c37d, 0xce84de79),
    (0x26d45f8a, 0x4e1b517e),
    (0x7496db70, 0x4ee92db6),
    (0x62002efd, 0x4ec4005d),
    (0x943834fd, 0xced78f96),
    (0xee3973ad, 0xcd8e3462),
    (0x97c8ff41, 0xced06e01),
    (0xbbcfc660, 0xce886073),
    (0x13b4a39e, 0x4d9da51c),
    (0x0b7aeddd, 0x4d37aedd),
    (0x4694ee92, 0x4e8d29dd),
    (0x9ce68a02, 0xcec632eb),
    (0xa1ff12aa, 0xcebc01da),
    (0xa9ccc84f, 0xceac666f),
    (0xfc2bd234, 0xcc750b73),
    (0x5fe315a5, 0x4ebfc62b),
    (0xba776cb7, 0xce8b1126),
    (0x937b38ca, 0xced9098e),
    (0x600775d8, 0x4ec00eeb),
    (0xa977dfe5, 0xcead1040),
    (0x8286ecde, 0xcefaf226),
    (0x1c766779, 0x4de3b33b),
    (0x78ac07ba, 0x4ef1580f),
    (0x7ec3a53f, 0x4efd874a),
    (0xb7d8728f, 0xce904f1a),
    (0xbd7f1aaf, 0xce8501ca),
    (0x13789656, 0x4d9bc4b2),
    (0xc9b389a0, 0xce5931d9),
    (0x89e749c0, 0xceec316c),
    (0x74b66de7, 0x4ee96cdb),
    (0x5d98322d, 0x4ebb3064),
    (0x97411b9f, 0xced17dc8),
    (0x2d8cdad8, 0x4e36336b),
    (0xb15bc10b, 0xce9d487d),
    (0x56d5efa4, 0x4eadabdf),
    (0x6acf048d, 0x4ed59e09),
    (0xd9240559, 0xce1b6fea),
    (0x7be66ffb, 0x4ef7ccdf),
    (0x3f6e0b3a, 0x4e7db82c),
    (0xc2cf8914, 0xce74c1db),
    (0x5294b2b0, 0x4ea52965),
    (0x390051e9, 0x4e640147),
    (0xa331aa35, 0xceb99cab),
    (0x2bd52eb8, 0x4e2f54ba),
    (0x879933b8, 0xcef0cd98),
    (0x2b51a34e, 0x4e2d468d),
    (0xf6c7755b, 0xcd1388aa),
    (0xafc13bc4, 0xcea07d88),
    (0xd4ff9a8f, 0xce2c0195),
    (0xc171a748, 0xce7a3962),
    (0x7c2aff2d, 0x4ef855fe),
];

const FROM_U32: &[(u32, u32)] = &[
    (0x00000000, 0x00000000),
    (0x00000001, 0x3f800000),
    (0x00000002, 0x40000000),
    (0x00ffffff, 0x4b7fffff),
    (0x01000000, 0x4b800000),
    (0x01000001, 0x4b800000),
    (0x7fffffff, 0x4effffff),
    (0x80000000, 0x4f000000),
    (0xffffffff, 0x4f7fffff),
    (0xffffff00, 0x4f7fffff),
    (0xfffffeff, 0x4f7ffffe),
    (0x55af3517, 0x4eab5e6a),
    (0x9432b109, 0x4f1432b1),
    (0x3a875091, 0x4e6a1d42),
    (0xaf5ec948, 0x4f2f5ec9),
    (0x5de9e14b, 0x4ebbd3c2),
    (0x5de0558c, 0x4ebbc0ab),
    (0x37f76818, 0x4e5fdda0),
    (0x0549f4ff, 0x4ca93e9f),
    (0x2332a5ce, 0x4e0cca97),
    (0xf559f484, 0x4f7559f4),
    (0xe6d56cab, 0x4f66d56c),
    (0x623c1f50, 0x4ec4783e),
    (0xd517251d, 0x4f551725),
    (0xcfd65159, 0x4f4fd651),
    (0x83460143, 0x4f034601),
    (0xdecc3d3e, 0x4f5ecc3d),
    (0x1de17c0d, 0x4def0be0),
    (0x072d5d9f, 0x4ce5abb3),
    (0x1d37f11f, 0x4de9bf88),
    (0xa6559dbc, 0x4f26559d),
    (0x91b70a23, 0x4f11b70a),
    (0x4cfaa84c, 0x4e99f550),
    (0x803dc509, 0x4f003dc5),
    (0xed7d7604, 0x4f6d7d76),
    (0x5b71fe49, 0x4eb6e3fc),
    (0x223c34ed, 0x4e08f0d3),
    (0xfbf2941a, 0x4f7bf294),
    (0xac9ce1ad, 0x4f2c9ce1),
    (0x5c0b7dc1, 0x4eb816fb),
    (0x97048e5a, 0x4f17048e),
    (0x0e0a2bd8, 0x4d60a2bd),
    (0xec8ae720, 0x4f6c8ae7),
    (0xb3480f15, 0x4f33480f),
    (0x7c6c3660, 0x4ef8d86c),
    (0x2ef4223c, 0x4e3bd088),
    (0x9f3d04b6, 0x4f1f3d04),
    (0x37ed887d, 0x4e5fb621),
    (0xfaa04ea0, 0x4f7aa04e),
    (0x9ab83be2, 0x4f1ab83b),
    (0x70d7a369, 0x4ee1af46),
    (0x735c0d15, 0x4ee6b81a),
    (0x34b79a60, 0x4e52de69),
    (0x16c5c40e, 0x4db62e20),
    (0xc7bfb61a, 0x4f47bfb6),
    (0xd1a41f35, 0x4f51a41f),
    (0x69b1f720, 0x4ed363ee),
    (0xb58a7bca, 0x4f358a7b),
    (0x9a77e5ac, 0x4f1a77e5),
    (0x6d8b0ef6, 0x4edb161d),
    (0xfc09b5c6, 0x4f7c09b5),
    (0x29762a44, 0x4e25d8a9),
    (0x98aab074, 0x4f18aab0),
    (0x51c82ff0, 0x4ea3905f),
    (0xf5aecd34, 0x4f75aecd),
    (0xef2e575e, 0x4f6f2e57),
    (0xd0408a28, 0x4f50408a),
    (0xadb1cd71, 0x4f2db1cd),
    (0xf9d67f63, 0x4f79d67f),
    (0xa105abdd, 0x4f2105ab),
    (0xc03ebfc6, 0x4f403ebf),
];

const TO_I32: &[(u32, u32)] = &[
    (0x3fc00000, 0x00000001),
    (0xc0200000, 0xfffffffe),
    (0x00000000, 0x00000000),
    (0x80000000, 0x00000000),
    (0x7f800000, 0x7fffffff),
    (0xff800000, 0x80000000),
    (0x7fc00001, 0x00000000),
    (0x00800000, 0x00000000),
    (0x80800000, 0x00000000),
    (0x7f7fffff, 0x7fffffff),
    (0xff7fffff, 0x80000000),
    (0x3f000000, 0x00000000),
    (0xbf000000, 0x00000000),
    (0x3f7fffff, 0x00000000),
    (0x3f800000, 0x00000001),
    (0xbf800000, 0xffffffff),
    (0x3fffffff, 0x00000001),
    (0xbfffffff, 0xffffffff),
    (0x4effffff, 0x7fffff80),
    (0x4f000000, 0x7fffffff),
    (0xcf000000, 0x80000000),
    (0xcf000001, 0x80000000),
    (0x4f7fffff, 0x7fffffff),
    (0x4f800000, 0x7fffffff),
    (0x4f800001, 0x7fffffff),
    (0x50000000, 0x7fffffff),
    (0x501502f9, 0x7fffffff),
    (0xd01502f9, 0x80000000),
    (0x7f61b1e6, 0x7fffffff),
    (0x4b800000, 0x01000000),
    (0x4b7fffff, 0x00ffffff),
    (0x4c000000, 0x02000000),
    (0x4d800000, 0x10000000),
    (0x4f7f0000, 0x7fffffff),
    (0x4f7fffff, 0x7fffffff),
    (0x4f800000, 0x7fffffff),
    (0x4effffff, 0x7fffff80),
    (0x4f000000, 0x7fffffff),
    (0xcf000000, 0x80000000),
    (0xcf000001, 0x80000000),
    (0x4f700000, 0x7fffffff),
    (0x00000001, 0x00000000),
    (0x807fffff, 0x00000000),
    (0x4eca90dc, 0x65486e00),
    (0x4f4d079a, 0x7fffffff),
    (0x4eff48e8, 0x7fa47400),
    (0xcf2b32c9, 0x80000000),
    (0x4ee11f40, 0x708fa000),
    (0xcf0ed83d, 0x80000000),
    (0xcf658900, 0x80000000),
    (0x4efd26da, 0x7e936d00),
    (0x4dfb4459, 0x1f688b20),
    (0x4f64f878, 0x7fffffff),
    (0xce6df281, 0xc4835fc0),
    (0xce4470bb, 0xcee3d140),
    (0x4f2cd54d, 0x7fffffff),
    (0xcf94ce1f, 0x80000000),
    (0xced7c157, 0x941f5480),
    (0xcf6ed3a1, 0x80000000),
    (0xcec0ed94, 0x9f893600),
    (0x4dc030f6, 0x18061ec0),
    (0x4f29d069, 0x7fffffff),
    (0x4f4572a2, 0x7fffffff),
    (0xcf078147, 0x80000000),
    (0xcf8eb94e, 0x80000000),
    (0xcef0aa82, 0x87aabf00),
    (0x4f900990, 0x7fffffff),
    (0x4d001bdc, 0x0801bdc0),
    (0x4f40d527, 0x7fffffff),
    (0x4f7dcb57, 0x7fffffff),
    (0x4d701a26, 0x0f01a260),
    (0xcf520c83, 0x80000000),
    (0x4f829ec2, 0x7fffffff),
    (0x4f78a580, 0x7fffffff),
    (0x4e8756d4, 0x43ab6a00),
    (0x4f844c60, 0x7fffffff),
    (0x4eb1b3c3, 0x58d9e180),
    (0xce4fd232, 0xcc0b7380),
    (0xce14c6d0, 0xdace4c00),
    (0xcc9946cf, 0xfb35c988),
    (0x4f2e2f5f, 0x7fffffff),
    (0x4e30bef6, 0x2c2fbd80),
    (0xcf7f5a33, 0x80000000),
    (0xc3a9765e, 0xfffffeae),
    (0x49cac880, 0x00195910),
    (0x4b268b25, 0x00a68b25),
    (0xcb2d4ef1, 0xff52b10f),
    (0x399188f0, 0x00000000),
    (0x1d0e690c, 0x00000000),
    (0xad0afbcc, 0x00000000),
    (0xba1e65a1, 0x00000000),
    (0xc3dc0fda, 0xfffffe48),
    (0x376f2d3b, 0x00000000),
    (0xefb47a49, 0x80000000),
    (0xe81fea68, 0x80000000),
    (0x429aecd2, 0x0000004d),
    (0xcb5c6015, 0xff239feb),
    (0xcb39b9ad, 0xff464653),
    (0x3a27beea, 0x00000000),
    (0xb98a6baf, 0x00000000),
    (0x3a73a031, 0x00000000),
    (0xc42cfa97, 0xfffffd4d),
    (0xc3f6d9b6, 0xfffffe13),
    (0x14cb7da6, 0x00000000),
    (0x74fc8824, 0x7fffffff),
    (0xba708ffb, 0x00000000),
    (0x370752d0, 0x00000000),
    (0xb93e6e35, 0x00000000),
    (0x408ba392, 0x00000004),
    (0xf14588f8, 0x80000000),
    (0x444b9d4d, 0x0000032e),
    (0xc3d2551f, 0xfffffe5c),
    (0xef7253c5, 0x80000000),
];

const TO_U32: &[(u32, u32)] = &[
    (0x3fc00000, 0x00000001),
    (0xc0200000, 0x00000000),
    (0x00000000, 0x00000000),
    (0x80000000, 0x00000000),
    (0x7f800000, 0xffffffff),
    (0xff800000, 0x00000000),
    (0x7fc00001, 0x00000000),
    (0x00800000, 0x00000000),
    (0x80800000, 0x00000000),
    (0x7f7fffff, 0xffffffff),
    (0xff7fffff, 0x00000000),
    (0x3f000000, 0x00000000),
    (0xbf000000, 0x00000000),
    (0x3f7fffff, 0x00000000),
    (0x3f800000, 0x00000001),
    (0xbf800000, 0x00000000),
    (0x3fffffff, 0x00000001),
    (0xbfffffff, 0x00000000),
    (0x4effffff, 0x7fffff80),
    (0x4f000000, 0x80000000),
    (0xcf000000, 0x00000000),
    (0xcf000001, 0x00000000),
    (0x4f7fffff, 0xffffff00),
    (0x4f800000, 0xffffffff),
    (0x4f800001, 0xffffffff),
    (0x50000000, 0xffffffff),
    (0x501502f9, 0xffffffff),
    (0xd01502f9, 0x00000000),
    (0x7f61b1e6, 0xffffffff),
    (0x4b800000, 0x01000000),
    (0x4b7fffff, 0x00ffffff),
    (0x4c000000, 0x02000000),
    (0x4d800000, 0x10000000),
    (0x4f7f0000, 0xff000000),
    (0x4f7fffff, 0xffffff00),
    (0x4f800000, 0xffffffff),
    (0x4effffff, 0x7fffff80),
    (0x4f000000, 0x80000000),
    (0xcf000000, 0x00000000),
    (0xcf000001, 0x00000000),
    (0x4f700000, 0xf0000000),
    (0x00000001, 0x00000000),
    (0x807fffff, 0x00000000),
    (0x4eca90dc, 0x65486e00),
    (0x4f4d079a, 0xcd079a00),
    (0x4eff48e8, 0x7fa47400),
    (0xcf2b32c9, 0x00000000),
    (0x4ee11f40, 0x708fa000),
    (0xcf0ed83d, 0x00000000),
    (0xcf658900, 0x00000000),
    (0x4efd26da, 0x7e936d00),
    (0x4dfb4459, 0x1f688b20),
    (0x4f64f878, 0xe4f87800),
    (0xce6df281, 0x00000000),
    (0xce4470bb, 0x00000000),
    (0x4f2cd54d, 0xacd54d00),
    (0xcf94ce1f, 0x00000000),
    (0xced7c157, 0x00000000),
    (0xcf6ed3a1, 0x00000000),
    (0xcec0ed94, 0x00000000),
    (0x4dc030f6, 0x18061ec0),
    (0x4f29d069, 0xa9d06900),
    (0x4f4572a2, 0xc572a200),
    (0xcf078147, 0x00000000),
    (0xcf8eb94e, 0x00000000),
    (0xcef0aa82, 0x00000000),
    (0x4f900990, 0xffffffff),
    (0x4d001bdc, 0x0801bdc0),
    (0x4f40d527, 0xc0d52700),
    (0x4f7dcb57, 0xfdcb5700),
    (0x4d701a26, 0x0f01a260),
    (0xcf520c83, 0x00000000),
    (0x4f829ec2, 0xffffffff),
    (0x4f78a580, 0xf8a58000),
    (0x4e8756d4, 0x43ab6a00),
    (0x4f844c60, 0xffffffff),
    (0x4eb1b3c3, 0x58d9e180),
    (0xce4fd232, 0x00000000),
    (0xce14c6d0, 0x00000000),
    (0xcc9946cf, 0x00000000),
    (0x4f2e2f5f, 0xae2f5f00),
    (0x4e30bef6, 0x2c2fbd80),
    (0xcf7f5a33, 0x00000000),
    (0xc3a9765e, 0x00000000),
    (0x49cac880, 0x00195910),
    (0x4b268b25, 0x00a68b25),
    (0xcb2d4ef1, 0x00000000),
    (0x399188f0, 0x00000000),
    (0x1d0e690c, 0x00000000),
    (0xad0afbcc, 0x00000000),
    (0xba1e65a1, 0x00000000),
    (0xc3dc0fda, 0x00000000),
    (0x376f2d3b, 0x00000000),
    (0xefb47a49, 0x00000000),
    (0xe81fea68, 0x00000000),
    (0x429aecd2, 0x0000004d),
    (0xcb5c6015, 0x00000000),
    (0xcb39b9ad, 0x00000000),
    (0x3a27beea, 0x00000000),
    (0xb98a6baf, 0x00000000),
    (0x3a73a031, 0x00000000),
    (0xc42cfa97, 0x00000000),
    (0xc3f6d9b6, 0x00000000),
    (0x14cb7da6, 0x00000000),
    (0x74fc8824, 0xffffffff),
    (0xba708ffb, 0x00000000),
    (0x370752d0, 0x00000000),
    (0xb93e6e35, 0x00000000),
    (0x408ba392, 0x00000004),
    (0xf14588f8, 0x00000000),
    (0x444b9d4d, 0x0000032e),
    (0xc3d2551f, 0x00000000),
    (0xef7253c5, 0x00000000),
];

#[test]
fn add_matches_exact_rational_ground_truth() {
    check_binop(ADD, rtz_add32);
}

#[test]
fn add_matches_special_value_ground_truth() {
    check_binop(ADD_SPECIALS, rtz_add32);
}

#[test]
fn mul_matches_exact_rational_ground_truth() {
    check_binop(MUL, rtz_mul32);
}

#[test]
fn mul_matches_special_value_ground_truth() {
    check_binop(MUL_SPECIALS, rtz_mul32);
}

#[test]
fn div_matches_exact_rational_ground_truth() {
    check_binop(DIV, rtz_div32);
}

#[test]
fn div_matches_special_value_ground_truth() {
    check_binop(DIV_SPECIALS, rtz_div32);
}

#[test]
fn cmp_matches_exact_rational_ground_truth() {
    check_binop(CMP, |a, b| rtz_cmp32(a, b) as u32);
}

#[test]
fn cmp_matches_special_value_ground_truth() {
    check_binop(CMP_SPECIALS, |a, b| rtz_cmp32(a, b) as u32);
}

#[test]
fn i32_to_f32_matches_ground_truth() {
    for &(i, expect) in FROM_I32 {
        assert_eq!(rtz_i32_to_f32(i as i32), expect, "i={i}");
    }
}

#[test]
fn u32_to_f32_matches_ground_truth() {
    for &(u, expect) in FROM_U32 {
        assert_eq!(rtz_u32_to_f32(u), expect, "u={u}");
    }
}

#[test]
fn f32_to_i32_matches_ground_truth() {
    for &(bits, expect) in TO_I32 {
        assert_eq!(rtz_f32_to_i32(bits), expect as i32, "bits={bits:08x}");
    }
}

#[test]
fn f32_to_u32_matches_ground_truth() {
    for &(bits, expect) in TO_U32 {
        assert_eq!(rtz_f32_to_u32(bits), expect, "bits={bits:08x}");
    }
}

#[test]
fn sub_is_add_with_flipped_sign() {
    assert_eq!(rtz_sub32(f32_bits(3.0), f32_bits(1.0)), f32_bits(2.0));
    assert_eq!(rtz_sub32(f32_bits(1.0), f32_bits(3.0)), f32_bits(-2.0));
}

fn f32_bits(x: f32) -> u32 {
    x.to_bits()
}

const SAMPLES: [u32; 20] = [
    0, 0x0000_0001, 0x807f_ffff, 0x8000_0000, 0x3f80_0000, 0xbf80_0000, 0x3fc0_0000, 0x7f80_0000, 0xff80_0000, 0x7fc0_0000, 0x0080_0000, 0x8080_0000,
    0x7f7f_ffff, 0xff7f_ffff, 0x3eaa_aaab, 0x4b7f_ffff, 0x4b80_0000, 0x1234_5678, 0xe789_abcd, 0x3f80_0001,
];

#[test]
fn addition_and_multiplication_commute_and_give_normal_values() {
    for a in SAMPLES {
        for b in SAMPLES {
            for r in [rtz_add32(a, b), rtz_mul32(a, b), rtz_div32(a, b)] {
                assert!(r & 0x7f80_0000 != 0 || r & 0x7f_ffff == 0, "{a:08x} {b:08x}");
            }
            assert_eq!(rtz_add32(a, b), rtz_add32(b, a));
            assert_eq!(rtz_mul32(a, b), rtz_mul32(b, a));
        }
        if a & 0x7f80_0000 != 0x7f80_0000 {
            assert_eq!(rtz_sub32(a, a), 0);
        }
    }
}

#[test]
fn comparison_turns_round_with_its_operands() {
    for a in SAMPLES {
        for b in SAMPLES {
            let (there, back) = (rtz_cmp32(a, b), rtz_cmp32(b, a));
            assert_eq!(back, if there == -2 { -2 } else { -there }, "{a:08x} {b:08x}");
        }
    }
}

#[test]
fn integers_of_24_bits_come_back() {
    for i in [0, 1, -1, 2, 3, 100, -12345, 0x7f_ffff, 0x80_0001, 0xff_ffff, -0xff_ffff] {
        assert_eq!(rtz_f32_to_i32(rtz_i32_to_f32(i)), i);
    }
    // One bit more is cut off.
    assert_eq!(rtz_f32_to_i32(rtz_i32_to_f32(0x100_0001)), 0x100_0000);
}
