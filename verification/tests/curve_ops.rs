//! Curve group behavior: the golden encodings and Weierstrass coordinates,
//! the group laws on concrete points, scalar multiplication against the
//! fixed-base path, and double-scalar verification.

use ecgfp5::curve::{AffinePoint, Point, WeierstrassPoint};
use ecgfp5::quintic_ext::GFp5;
use ecgfp5::scalar_field::EcGFp5Scalar;
use rand::Rng;

fn test_vectors() -> [GFp5; 8] {
    // P0 is neutral of G.
    // P1 is a random point in G (encoded as w1)
    // P2 = e*P1 in G (encoded as w2)
    // P3 = P1 + P2 (in G) (encoded as w3)
    // P4 = 2*P1 (in G) (encoded as w4)
    // P5 = 2*P2 (in G) (encoded as w5)
    // P6 = 2*P1 + P2 (in G) (encoded as w6)
    // P7 = P1 + 2*P2 (in G) (encoded as w7)

    let w0 = GFp5::zero();
    let w1 = GFp5::new(
        12539254003028696409,
        15524144070600887654,
        15092036948424041984,
        11398871370327264211,
        10958391180505708567,
    );
    let w2 = GFp5::new(
        11001943240060308920,
        17075173755187928434,
        3940989555384655766,
        15017795574860011099,
        5548543797011402287,
    );
    let w3 = GFp5::new(
        246872606398642312,
        4900963247917836450,
        7327006728177203977,
        13945036888436667069,
        3062018119121328861,
    );
    let w4 = GFp5::new(
        8058035104653144162,
        16041715455419993830,
        7448530016070824199,
        11253639182222911208,
        6228757819849640866,
    );
    let w5 = GFp5::new(
        10523134687509281194,
        11148711503117769087,
        9056499921957594891,
        13016664454465495026,
        16494247923890248266,
    );
    let w6 = GFp5::new(
        12173306542237620,
        6587231965341539782,
        17027985748515888117,
        17194831817613584995,
        10056734072351459010,
    );
    let w7 = GFp5::new(
        9420857400785992333,
        4695934009314206363,
        14471922162341187302,
        13395190104221781928,
        16359223219913018041,
    );

    [w0, w1, w2, w3, w4, w5, w6, w7]
}

#[test]
fn test_basic_ops() {
    let [w0, w1, w2, w3, w4, w5, w6, w7] = test_vectors();

    // Values that should not decode successfully.
    let bww: [GFp5; 6] = [
        GFp5::new(
            13557832913345268708,
            15669280705791538619,
            8534654657267986396,
            12533218303838131749,
            5058070698878426028,
        ),
        GFp5::new(
            135036726621282077,
            17283229938160287622,
            13113167081889323961,
            1653240450380825271,
            520025869628727862,
        ),
        GFp5::new(
            6727960962624180771,
            17240764188796091916,
            3954717247028503753,
            1002781561619501488,
            4295357288570643789,
        ),
        GFp5::new(
            4578929270179684956,
            3866930513245945042,
            7662265318638150701,
            9503686272550423634,
            12241691520798116285,
        ),
        GFp5::new(
            16890297404904119082,
            6169724643582733633,
            9725973298012340311,
            5977049210035183790,
            11379332130141664883,
        ),
        GFp5::new(
            13777379982711219130,
            14715168412651470168,
            17942199593791635585,
            6188824164976547520,
            15461469634034461986,
        ),
    ];

    assert!(Point::validate(&w0));
    assert!(Point::validate(&w1));
    assert!(Point::validate(&w2));
    assert!(Point::validate(&w3));
    assert!(Point::validate(&w4));
    assert!(Point::validate(&w5));
    assert!(Point::validate(&w6));
    assert!(Point::validate(&w7));

    let p0 = Point::decode(&w0).expect("w0 should successfully decode");
    let p1 = Point::decode(&w1).expect("w1 should successfully decode");
    let p2 = Point::decode(&w2).expect("w2 should successfully decode");
    let p3 = Point::decode(&w3).expect("w3 should successfully decode");
    let p4 = Point::decode(&w4).expect("w4 should successfully decode");
    let p5 = Point::decode(&w5).expect("w5 should successfully decode");
    let p6 = Point::decode(&w6).expect("w6 should successfully decode");
    let p7 = Point::decode(&w7).expect("w7 should successfully decode");

    assert!(p0.is_neutral());
    assert!(!p1.is_neutral());
    assert!(!p2.is_neutral());
    assert!(!p3.is_neutral());
    assert!(!p4.is_neutral());
    assert!(!p5.is_neutral());
    assert!(!p6.is_neutral());
    assert!(!p7.is_neutral());

    assert!(p0.equals(&p0));
    assert!(p1.equals(&p1));
    assert!(!p0.equals(&p1));
    assert!(!p1.equals(&p0));
    assert!(!p1.equals(&p2));

    assert_eq!(p0.encode(), w0);
    assert_eq!(p1.encode(), w1);
    assert_eq!(p2.encode(), w2);
    assert_eq!(p3.encode(), w3);
    assert_eq!(p4.encode(), w4);
    assert_eq!(p5.encode(), w5);
    assert_eq!(p6.encode(), w6);
    assert_eq!(p7.encode(), w7);

    for &w in bww.iter() {
        assert!(!Point::validate(&w));
        assert!(Point::decode(&w).is_none());
    }

    assert_eq!(p1.add_point(&p2).encode(), w3);
    assert_eq!(p1.add_point(&p1).encode(), w4);
    assert_eq!(p2.double().encode(), w5);
    assert_eq!(p1.double().add_point(&p2).encode(), w6);
    assert_eq!(p1.add_point(&p2).add_point(&p2).encode(), w7);

    assert_eq!(p0.double().encode(), GFp5::zero());
    assert_eq!(p0.add_point(&p0).encode(), GFp5::zero());
    assert_eq!(p0.add_point(&p1).encode(), w1);
    assert_eq!(p1.add_point(&p0).encode(), w1);

    for i in 0..10 {
        let q1 = p1.mdouble(i);
        let mut q2 = p1;
        for _ in 0..i {
            q2 = q2.double();
        }
        assert!(q1.equals(&q2));
    }

    let p2_affine = AffinePoint {
        x: p2.x.mul5(&p2.z.inverse_or_zero5()),
        u: p2.u.mul5(&p2.t.inverse_or_zero5()),
    };
    assert!(p1.add_affine_point(&p2_affine).equals(&p1.add_point(&p2)));
}

#[test]
fn test_to_affine() {
    let w = GFp5::new(
        12539254003028696409,
        15524144070600887654,
        15092036948424041984,
        11398871370327264211,
        10958391180505708567,
    );
    let p = Point::decode(&w).expect("w should successfully decode");

    // Create an array of 8 points.
    let mut tab1: Vec<Point> = Vec::new();
    tab1.push(p.double());
    for i in 1..8 {
        let q = tab1[0].add_point(&tab1[i - 1]);
        tab1.push(q);
    }

    // Test conversion to affine coordinates.
    for n in 1..(tab1.len() + 1) {
        let tab2 = Point::batch_to_affine(&tab1);
        for i in 0..n {
            assert_eq!(tab1[i].z.mul5(&tab2[i].x), tab1[i].x);
            assert_eq!(tab1[i].t.mul5(&tab2[i].u), tab1[i].u);
        }
    }

    // Test lookup.
    let win = Point::batch_to_affine(&tab1);
    let p1_affine = AffinePoint::lookup(&win, 0);
    assert_eq!(p1_affine.x, GFp5::zero());
    assert_eq!(p1_affine.u, GFp5::zero());
    for i in 1..9 {
        let p2_affine = AffinePoint::lookup(&win, i as i32);
        assert_eq!(tab1[i - 1].z.mul5(&p2_affine.x), tab1[i - 1].x);
        assert_eq!(tab1[i - 1].t.mul5(&p2_affine.u), tab1[i - 1].u);

        let p3_affine = AffinePoint::lookup(&win, -(i as i32));
        assert_eq!(tab1[i - 1].z.mul5(&p3_affine.x), tab1[i - 1].x);
        assert_eq!(tab1[i - 1].t.mul5(&p3_affine.u), tab1[i - 1].u.neg5());
    }
}

#[test]
fn test_scalar_mul() {
    // w1 = encoding of a random point P1
    // ebuf = encoding of a random scalar e
    // w2 = encoding of P2 = e*P1
    let w1 = GFp5::new(
        7534507442095725921,
        16658460051907528927,
        12417574136563175256,
        2750788641759288856,
        620002843272906439,
    );
    let ebuf: [u8; 40] = [
        0x1B, 0x18, 0x51, 0xC8, 0x1D, 0x22, 0xD4, 0x0D, 0x6D, 0x36, 0xEC, 0xCE, 0x54, 0x27, 0x41,
        0x66, 0x08, 0x14, 0x2F, 0x8F, 0xFF, 0x64, 0xB4, 0x76, 0x28, 0xCD, 0x3F, 0xF8, 0xAA, 0x25,
        0x16, 0xD4, 0xBA, 0xD0, 0xCC, 0x02, 0x1A, 0x44, 0x7C, 0x03,
    ];
    let w2 = GFp5::new(
        9486104512504676657,
        14312981644741144668,
        5159846406177847664,
        15978863787033795628,
        3249948839313771192,
    );

    let p1 = Point::decode(&w1).expect("w1 should successfully decode");
    let p2 = Point::decode(&w2).expect("w2 should successfully decode");
    let (e, ce) = EcGFp5Scalar::try_from_noncanonical_bytes(&ebuf);

    assert!(ce == 0xFFFFFFFFFFFFFFFF);
    let q1 = p1.mul_scalar(&e);
    assert!(q1.equals(&p2));
    assert!(q1.encode() == w2);

    let q2 = p1.mul_scalar(&e);
    assert!(q2.equals(&p2));
    assert!(q2.encode() == w2);
}

#[test]
fn test_decode() {
    let [w0, w1, w2, w3, w4, w5, w6, w7] = test_vectors();

    let p0_expected = WeierstrassPoint {
        x: GFp5::new(6148914689804861440, 0, 0, 0, 0),
        y: GFp5::zero(),
        is_inf: true,
    };
    let p0 = WeierstrassPoint::decode(&w0).expect("w0 should successfully decode");
    assert!(p0.equals(&p0_expected));

    let p1_expected = WeierstrassPoint {
        x: GFp5::new(
            7887569478949190020,
            11586418388990522938,
            13676447623055915878,
            5945168854809921881,
            16291886980725359814,
        ),
        y: GFp5::new(
            7556511254681645335,
            17611929280367064763,
            9410908488141053806,
            11351540010214108766,
            4846226015431423207,
        ),
        is_inf: false,
    };
    let p1 = WeierstrassPoint::decode(&w1).expect("w1 should successfully decode");
    assert!(p1.equals(&p1_expected));

    let p2_expected = WeierstrassPoint {
        x: GFp5::new(
            11231216549003316587,
            17312878720767554617,
            5614299211412933260,
            2256199868722187419,
            14229722163821261464,
        ),
        y: GFp5::new(
            11740132275098847128,
            18250632754932612452,
            6988589976052950880,
            13612651576898186637,
            16040252831112129154,
        ),
        is_inf: false,
    };
    let p2 = WeierstrassPoint::decode(&w2).expect("w2 should successfully decode");
    assert!(p2.equals(&p2_expected));

    let p3_expected = WeierstrassPoint {
        x: GFp5::new(
            567456832026211571,
            6401615614732569674,
            7303004494044972219,
            4332356015409706768,
            4663512734739523713,
        ),
        y: GFp5::new(
            13838792670272995877,
            11742686110311813089,
            17972799251722850796,
            8534723577625674697,
            3138422718990519265,
        ),
        is_inf: false,
    };
    let p3 = WeierstrassPoint::decode(&w3).expect("w3 should successfully decode");
    assert!(p3.equals(&p3_expected));

    let p4_expected = WeierstrassPoint {
        x: GFp5::new(
            2626390539619063455,
            3069873143820007175,
            16481805966921623903,
            2169403494164322467,
            15849876939764656634,
        ),
        y: GFp5::new(
            8052493994140007067,
            12476750341447220703,
            7297584762312352412,
            4456043296886321460,
            17416054515469523789,
        ),
        is_inf: false,
    };
    let p4 = WeierstrassPoint::decode(&w4).expect("w4 should successfully decode");
    assert!(p4.equals(&p4_expected));

    let p5_expected = WeierstrassPoint {
        x: GFp5::new(
            3378618241466923429,
            1600085176765664645,
            8450735902517439914,
            879305481131694650,
            9249368002914244868,
        ),
        y: GFp5::new(
            7063301786803892166,
            16450112846546843898,
            13291990378137922105,
            17122501309646837992,
            13551174888872382132,
        ),
        is_inf: false,
    };
    let p5 = WeierstrassPoint::decode(&w5).expect("w5 should successfully decode");
    assert!(p5.equals(&p5_expected));

    let p6_expected = WeierstrassPoint {
        x: GFp5::new(
            12792842147978866906,
            10605017725125541653,
            7515179057747849898,
            4244613931017322576,
            5015379385130367832,
        ),
        y: GFp5::new(
            11618884250209642346,
            14788516166813429253,
            7317520700234795285,
            12825292405177435802,
            17658454967394645353,
        ),
        is_inf: false,
    };
    let p6 = WeierstrassPoint::decode(&w6).expect("w6 should successfully decode");
    assert!(p6.equals(&p6_expected));

    let p7_expected = WeierstrassPoint {
        x: GFp5::new(
            10440794216646581227,
            13992847258701590930,
            11213401763785319360,
            12830171931568113117,
            6220154342199499160,
        ),
        y: GFp5::new(
            7971683838841472962,
            1639066249976938469,
            15015315060237521031,
            10847769264696425470,
            9177491810370773777,
        ),
        is_inf: false,
    };
    let p7 = WeierstrassPoint::decode(&w7).expect("w7 should successfully decode");
    assert!(p7.equals(&p7_expected));

    let w_gen = GFp5::new(4, 0, 0, 0, 0);
    let g = WeierstrassPoint::decode(&w_gen).expect("w_gen should successfully decode");
    assert!(g.equals(&WeierstrassPoint::generator()));
}

fn random_scalar(rng: &mut impl Rng) -> EcGFp5Scalar {
    let mut ebuf = [0u8; 48];
    rng.fill(&mut ebuf[..]);
    EcGFp5Scalar::from_noncanonical_bytes(&ebuf)
}

#[test]
fn test_decode_random() {
    let mut rng = rand::thread_rng();
    for _ in 0..30 {
        let s = random_scalar(&mut rng);
        let point = Point::generator().mul_scalar(&s);
        let encoded = point.encode();
        let decoded = Point::decode(&encoded).expect("decoding should succeed");
        assert!(point.equals(&decoded));

        let wp = point.to_weierstrass();
        let encoded = wp.encode();
        let decoded = WeierstrassPoint::decode(&encoded).expect("decoding should succeed");
        assert!(wp.equals(&decoded));

        let decoded = Point::decode(&encoded).expect("decoding should succeed");
        assert!(point.equals(&decoded));
    }
}

#[test]
fn test_mulgen() {
    let mut rng = rand::thread_rng();
    for _ in 0..20 {
        let mut ebuf = [0u8; 48];
        rng.fill(&mut ebuf[..]);

        let e = EcGFp5Scalar::from_noncanonical_bytes(&ebuf);
        let p1 = Point::generator().mul_scalar(&e);
        let p2 = Point::mulgen(&e);

        assert!(p1.equals(&p2));
    }
}

#[test]
fn test_verify_muladd() {
    let mut rng = rand::thread_rng();
    for _ in 0..20 {
        let mut ebuf = [0u8; 48];
        let mut sbuf = [0u8; 48];
        let mut kbuf = [0u8; 48];
        rng.fill(&mut ebuf[..]);
        rng.fill(&mut sbuf[..]);
        rng.fill(&mut kbuf[..]);

        let e = EcGFp5Scalar::from_noncanonical_bytes(&ebuf);
        let s = EcGFp5Scalar::from_noncanonical_bytes(&sbuf);
        let k = EcGFp5Scalar::from_noncanonical_bytes(&kbuf);

        let q = Point::mulgen(&e);
        let r = Point::mulgen(&s).add_point(&q.mul_scalar(&k));
        assert!(q.verify_muladd_vartime(&s, &k, &r));

        let r2 = r.add_point(&Point::generator());
        assert!(!q.verify_muladd_vartime(&s, &k, &r2));
    }
}

#[test]
fn group_laws_on_random_points() {
    let mut rng = rand::thread_rng();
    for _ in 0..5 {
        let p = Point::generator().mul_scalar(&random_scalar(&mut rng));
        let q = Point::generator().mul_scalar(&random_scalar(&mut rng));

        // commutativity
        assert!(p.add_point(&q).equals(&q.add_point(&p)));
        // neutral element
        assert!(p.add_point(&Point::neutral()).equals(&p));
        // inverse element
        assert!(p.add_point(&p.neg_point()).is_neutral());
        // doubling agrees with addition
        assert!(p.double().equals(&p.add_point(&p)));
    }
}

#[test]
fn mul_matches_naive_double_and_add() {
    let mut rng = rand::thread_rng();
    let p = Point::generator().mul_scalar(&random_scalar(&mut rng));
    let s = random_scalar(&mut rng);

    // naive most-significant-first double-and-add over the scalar bits
    let limbs = [s.l0, s.l1, s.l2, s.l3, s.l4];
    let mut acc = Point::neutral();
    for limb_idx in (0..5).rev() {
        for bit in (0..64).rev() {
            acc = acc.double();
            if (limbs[limb_idx] >> bit) & 1 == 1 {
                acc = acc.add_point(&p);
            }
        }
    }
    assert!(acc.equals(&p.mul_scalar(&s)));
}

#[test]
fn mulgen_fixed_scalars() {
    // 0 * G is the neutral; 1 * G is the generator; (n - 1) * G is -G.
    assert!(Point::mulgen(&EcGFp5Scalar::zero()).is_neutral());
    assert!(Point::mulgen(&EcGFp5Scalar::one()).equals(&Point::generator()));
    let minus_one = EcGFp5Scalar::zero().sub_mod(&EcGFp5Scalar::one());
    assert!(Point::mulgen(&minus_one).equals(&Point::generator().neg_point()));
}

#[test]
fn batch_to_affine_matches_single_inversions() {
    let mut rng = rand::thread_rng();
    for n in 0..10 {
        let mut pts: Vec<Point> = Vec::new();
        for _ in 0..n {
            pts.push(Point::generator().mul_scalar(&random_scalar(&mut rng)));
        }
        let affs = Point::batch_to_affine(&pts);
        assert_eq!(affs.len(), pts.len());
        for i in 0..n {
            let x = pts[i].x.mul5(&pts[i].z.inverse_or_zero5());
            let u = pts[i].u.mul5(&pts[i].t.inverse_or_zero5());
            assert_eq!(affs[i].x, x);
            assert_eq!(affs[i].u, u);
        }
    }
}

#[test]
fn encode_decode_rejects_bad_discriminant() {
    // A value whose discriminant is a non-residue has no point.
    let bad = GFp5::new(
        13557832913345268708,
        15669280705791538619,
        8534654657267986396,
        12533218303838131749,
        5058070698878426028,
    );
    assert!(Point::decode(&bad).is_none());
    assert!(WeierstrassPoint::decode(&bad).is_none());
    assert!(!Point::validate(&bad));
}

#[test]
fn masked_lookup_matches_vartime_lookup() {
    let mut rng = rand::thread_rng();
    let p = Point::generator().mul_scalar(&random_scalar(&mut rng));
    let win = p.make_window_affine();
    for k in -16..17 {
        let a = AffinePoint::lookup(&win, k);
        let b = AffinePoint::lookup_vartime(&win, k);
        assert_eq!(a.x, b.x);
        assert_eq!(a.u, b.u);
    }
}
