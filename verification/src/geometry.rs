//! Code for the geometry builtins, in straight-line floating-point instructions.
//! Constants are given by the bits of the number that their comment says.
use crate::ast::{STy, Ty};
use crate::ir::{
    call1, call2, define, float_const, float_text, load, minus, plus, times, Cx, Module, Text,
};
use crate::text::{cat2, cat4};
use vstd::prelude::*;
use vstd::string::*;

verus! {

/// Pi over 180.
pub const DEG: u64 = 0x3F91_DF46_A252_9D39;

/// 180 over pi.
pub const RAD: u64 = 0x404C_A5DC_1A63_C1F8;

/// The equatorial radius of the earth in metres.
pub const WGS_A: u64 = 0x4158_54A6_4000_0000;

/// The squared eccentricity of the earth.
pub const WGS_E2: u64 = 0x3F7B_6B90_F1FE_94F0;

/// 360.
pub const FULL: u64 = 0x4076_8000_0000_0000;

/// 1.
pub const ONE_F: u64 = 0x3FF0_0000_0000_0000;

/// 0.
pub const ZERO_F: u64 = 0;

/// The bearing in degrees from one place to another.
#[verifier::opaque]
pub open spec fn bearing(cx: Cx, from: Text, to: Text) -> (Cx, Text) {
    let s1 = load(cx, from, "double"@, STy::F64, 0);
    let lat1_deg = s1.1;
    let s2 = load(s1.0, from, "double"@, STy::F64, 1);
    let lon1_deg = s2.1;
    let s3 = load(s2.0, to, "double"@, STy::F64, 0);
    let lat2_deg = s3.1;
    let s4 = load(s3.0, to, "double"@, STy::F64, 1);
    let lon2_deg = s4.1;
    let s5 = times(s4.0, lat1_deg, float_const(DEG), true);
    let lat1 = s5.1;
    let s6 = times(s5.0, lon1_deg, float_const(DEG), true);
    let lon1 = s6.1;
    let s7 = times(s6.0, lat2_deg, float_const(DEG), true);
    let lat2 = s7.1;
    let s8 = times(s7.0, lon2_deg, float_const(DEG), true);
    let lon2 = s8.1;
    let s9 = minus(s8.0, lon2, lon1);
    let dlon = s9.1;
    let s10 = call1(s9.0, "@llvm.sin.f64"@, dlon);
    let sin_dlon = s10.1;
    let s11 = call1(s10.0, "@llvm.cos.f64"@, lat2);
    let cos_lat2 = s11.1;
    let s12 = times(s11.0, sin_dlon, cos_lat2, true);
    let y = s12.1;
    let s13 = call1(s12.0, "@llvm.cos.f64"@, lat1);
    let cos_lat1 = s13.1;
    let s14 = call1(s13.0, "@llvm.sin.f64"@, lat2);
    let sin_lat2 = s14.1;
    let s15 = times(s14.0, cos_lat1, sin_lat2, true);
    let term1 = s15.1;
    let s16 = call1(s15.0, "@llvm.sin.f64"@, lat1);
    let sin_lat1 = s16.1;
    let s17 = call1(s16.0, "@llvm.cos.f64"@, dlon);
    let cos_dlon = s17.1;
    let s18 = times(s17.0, sin_lat1, cos_lat2, true);
    let t2a = s18.1;
    let s19 = times(s18.0, t2a, cos_dlon, true);
    let term2 = s19.1;
    let s20 = minus(s19.0, term1, term2);
    let x = s20.1;
    let s21 = call2(s20.0, "@atan2"@, y, x);
    let ang = s21.1;
    let s22 = times(s21.0, ang, float_const(RAD), true);
    let deg = s22.1;
    let s23 = plus(s22.0, deg, float_const(FULL), true);
    let turned = s23.1;
    let s24 = define(s23.0, "bearing_wrap"@, "frem double "@ + turned + ", "@ + float_const(FULL));
    let wrapped = s24.1;
    (s24.0, wrapped)
}

/// Earth-centred coordinates of a place.
#[verifier::opaque]
pub open spec fn lla_to_ecef(cx: Cx, lat_deg: Text, lon_deg: Text, alt: Text) -> (Cx, (Text, Text, Text)) {
    let s1 = times(cx, lat_deg, float_const(DEG), true);
    let lat = s1.1;
    let s2 = times(s1.0, lon_deg, float_const(DEG), true);
    let lon = s2.1;
    let s3 = call1(s2.0, "@llvm.sin.f64"@, lat);
    let sin_lat = s3.1;
    let s4 = times(s3.0, sin_lat, sin_lat, true);
    let sin_lat_sq = s4.1;
    let s5 = times(s4.0, float_const(WGS_E2), sin_lat_sq, true);
    let e2_sinsq = s5.1;
    let s6 = minus(s5.0, float_const(ONE_F), e2_sinsq);
    let one_minus = s6.1;
    let s7 = call1(s6.0, "@llvm.sqrt.f64"@, one_minus);
    let sqrt_term = s7.1;
    let s8 = define(s7.0, "wgs84_n"@, "fdiv double "@ + float_const(WGS_A) + ", "@ + sqrt_term);
    let n = s8.1;
    let s9 = call1(s8.0, "@llvm.cos.f64"@, lat);
    let cos_lat = s9.1;
    let s10 = call1(s9.0, "@llvm.cos.f64"@, lon);
    let cos_lon = s10.1;
    let s11 = call1(s10.0, "@llvm.sin.f64"@, lon);
    let sin_lon = s11.1;
    let s12 = plus(s11.0, n, alt, true);
    let n_plus_alt = s12.1;
    let s13 = times(s12.0, n_plus_alt, cos_lat, true);
    let np_cos_lat = s13.1;
    let s14 = times(s13.0, np_cos_lat, cos_lon, true);
    let x = s14.1;
    let s15 = times(s14.0, np_cos_lat, sin_lon, true);
    let y = s15.1;
    let s16 = minus(s15.0, float_const(ONE_F), float_const(WGS_E2));
    let one_minus_e2 = s16.1;
    let s17 = times(s16.0, n, one_minus_e2, true);
    let n_1me2 = s17.1;
    let s18 = plus(s17.0, n_1me2, alt, true);
    let n_1me2_plus_alt = s18.1;
    let s19 = times(s18.0, n_1me2_plus_alt, sin_lat, true);
    let z = s19.1;
    (s19.0, (x, y, z))
}

/// One round of approximation of latitude and altitude.
#[verifier::opaque]
pub open spec fn lla_round(cx: Cx, z: Text, p: Text, lat: Text) -> (Cx, (Text, Text)) {
    let s1 = call1(cx, "@llvm.sin.f64"@, lat);
    let sin_lat = s1.1;
    let s2 = times(s1.0, sin_lat, sin_lat, true);
    let sin_lat_sq = s2.1;
    let s3 = times(s2.0, float_const(WGS_E2), sin_lat_sq, true);
    let e2_sinsq = s3.1;
    let s4 = minus(s3.0, float_const(ONE_F), e2_sinsq);
    let one_minus = s4.1;
    let s5 = call1(s4.0, "@llvm.sqrt.f64"@, one_minus);
    let sqrt_term = s5.1;
    let s6 = define(s5.0, "wgs84_n"@, "fdiv double "@ + float_const(WGS_A) + ", "@ + sqrt_term);
    let n = s6.1;
    let s7 = call1(s6.0, "@llvm.cos.f64"@, lat);
    let cos_lat = s7.1;
    let s8 = define(s7.0, "p_over_cos"@, "fdiv double "@ + p + ", "@ + cos_lat);
    let p_over_cos = s8.1;
    let s9 = minus(s8.0, p_over_cos, n);
    let alt = s9.1;
    let s10 = plus(s9.0, n, alt, true);
    let n_plus_alt = s10.1;
    let s11 = times(s10.0, float_const(WGS_E2), n, true);
    let e2n = s11.1;
    let s12 = define(s11.0, "e2n_over"@, "fdiv double "@ + e2n + ", "@ + n_plus_alt);
    let e2n_over = s12.1;
    let s13 = minus(s12.0, float_const(ONE_F), e2n_over);
    let inner = s13.1;
    let s14 = times(s13.0, p, inner, true);
    let p_inner = s14.1;
    let s15 = call2(s14.0, "@atan2"@, z, p_inner);
    let next = s15.1;
    (s15.0, (next, alt))
}

/// The place of earth-centred coordinates.
#[verifier::opaque]
pub open spec fn ecef_to_lla(cx: Cx, x: Text, y: Text, z: Text) -> (Cx, (Text, Text, Text)) {
    let s1 = call2(cx, "@atan2"@, y, x);
    let lon = s1.1;
    let s2 = times(s1.0, x, x, true);
    let x2 = s2.1;
    let s3 = times(s2.0, y, y, true);
    let y2 = s3.1;
    let s4 = plus(s3.0, x2, y2, true);
    let x2y2 = s4.1;
    let s5 = call1(s4.0, "@llvm.sqrt.f64"@, x2y2);
    let p = s5.1;
    let s6 = minus(s5.0, float_const(ONE_F), float_const(WGS_E2));
    let one_minus_e2 = s6.1;
    let s7 = times(s6.0, p, one_minus_e2, true);
    let p_1me2 = s7.1;
    let s8 = call2(s7.0, "@atan2"@, z, p_1me2);
    let lat0 = s8.1;
    let s9 = lla_round(s8.0, z, p, lat0);
    let lat1 = s9.1.0;
    let s10 = lla_round(s9.0, z, p, lat1);
    let lat2 = s10.1.0;
    let s11 = lla_round(s10.0, z, p, lat2);
    let lat3 = s11.1.0;
    let s12 = lla_round(s11.0, z, p, lat3);
    let lat4 = s12.1.0;
    let s13 = lla_round(s12.0, z, p, lat4);
    let lat5 = s13.1.0;
    let alt = s13.1.1;
    let s14 = times(s13.0, lat5, float_const(RAD), true);
    let lat_deg = s14.1;
    let s15 = times(s14.0, lon, float_const(RAD), true);
    let lon_deg = s15.1;
    (s15.0, (lat_deg, lon_deg, alt))
}

/// The rotation from earth-centred to local coordinates, by rows; its third entry is zero.
#[verifier::opaque]
pub open spec fn rotation(cx: Cx, lat: Text, lon: Text) -> (Cx, (Text, Text, Text, Text, Text, Text, Text, Text)) {
    let s1 = call1(cx, "@llvm.sin.f64"@, lat);
    let sin_lat = s1.1;
    let s2 = call1(s1.0, "@llvm.cos.f64"@, lat);
    let cos_lat = s2.1;
    let s3 = call1(s2.0, "@llvm.sin.f64"@, lon);
    let sin_lon = s3.1;
    let s4 = call1(s3.0, "@llvm.cos.f64"@, lon);
    let cos_lon = s4.1;
    let s5 = define(s4.0, "neg"@, "fneg double "@ + sin_lon);
    let neg_sin_lon = s5.1;
    let s6 = define(s5.0, "neg"@, "fneg double "@ + sin_lat);
    let neg_sin_lat = s6.1;
    let s7 = times(s6.0, neg_sin_lat, cos_lon, true);
    let r10 = s7.1;
    let s8 = times(s7.0, neg_sin_lat, sin_lon, true);
    let r11 = s8.1;
    let s9 = times(s8.0, cos_lat, cos_lon, true);
    let r20 = s9.1;
    let s10 = times(s9.0, cos_lat, sin_lon, true);
    let r21 = s10.1;
    (s10.0, (neg_sin_lon, cos_lon, r10, r11, cos_lat, r20, r21, sin_lat))
}

/// The sum of three products.
#[verifier::opaque]
pub open spec fn weighted(cx: Cx, r0: Text, r1: Text, r2: Text, d0: Text, d1: Text, d2: Text) -> (Cx, Text) {
    let s1 = times(cx, r0, d0, true);
    let t0 = s1.1;
    let s2 = times(s1.0, r1, d1, true);
    let t1 = s2.1;
    let s3 = times(s2.0, r2, d2, true);
    let t2 = s3.1;
    let s4 = plus(s3.0, t0, t1, true);
    let s01 = s4.1;
    let s5 = plus(s4.0, s01, t2, true);
    let s = s5.1;
    (s5.0, s)
}

/// Local coordinates of earth-centred ones.
#[verifier::opaque]
pub open spec fn ecef_to_enu(cx: Cx, a: Text, base: Text) -> (Cx, (Text, Text, Text)) {
    let s1 = load(cx, a, "double"@, STy::F64, 0);
    let a0 = s1.1;
    let s2 = load(s1.0, a, "double"@, STy::F64, 1);
    let a1 = s2.1;
    let s3 = load(s2.0, a, "double"@, STy::F64, 2);
    let a2 = s3.1;
    let s4 = load(s3.0, base, "double"@, STy::F64, 0);
    let lat_deg = s4.1;
    let s5 = load(s4.0, base, "double"@, STy::F64, 1);
    let lon_deg = s5.1;
    let s6 = load(s5.0, base, "double"@, STy::F64, 2);
    let alt = s6.1;
    let s7 = lla_to_ecef(s6.0, lat_deg, lon_deg, alt);
    let rx = s7.1.0;
    let ry = s7.1.1;
    let rz = s7.1.2;
    let s8 = times(s7.0, lat_deg, float_const(DEG), true);
    let lat = s8.1;
    let s9 = times(s8.0, lon_deg, float_const(DEG), true);
    let lon = s9.1;
    let s10 = rotation(s9.0, lat, lon);
    let r00 = s10.1.0;
    let r01 = s10.1.1;
    let r10 = s10.1.2;
    let r11 = s10.1.3;
    let r12 = s10.1.4;
    let r20 = s10.1.5;
    let r21 = s10.1.6;
    let r22 = s10.1.7;
    let s11 = minus(s10.0, a0, rx);
    let d0 = s11.1;
    let s12 = minus(s11.0, a1, ry);
    let d1 = s12.1;
    let s13 = minus(s12.0, a2, rz);
    let d2 = s13.1;
    let s14 = weighted(s13.0, r00, r01, float_const(ZERO_F), d0, d1, d2);
    let o0 = s14.1;
    let s15 = weighted(s14.0, r10, r11, r12, d0, d1, d2);
    let o1 = s15.1;
    let s16 = weighted(s15.0, r20, r21, r22, d0, d1, d2);
    let o2 = s16.1;
    (s16.0, (o0, o1, o2))
}

/// Earth-centred coordinates of local ones.
#[verifier::opaque]
pub open spec fn enu_to_ecef(cx: Cx, a: Text, base: Text) -> (Cx, (Text, Text, Text)) {
    let s1 = load(cx, a, "double"@, STy::F64, 0);
    let a0 = s1.1;
    let s2 = load(s1.0, a, "double"@, STy::F64, 1);
    let a1 = s2.1;
    let s3 = load(s2.0, a, "double"@, STy::F64, 2);
    let a2 = s3.1;
    let s4 = load(s3.0, base, "double"@, STy::F64, 0);
    let lat_deg = s4.1;
    let s5 = load(s4.0, base, "double"@, STy::F64, 1);
    let lon_deg = s5.1;
    let s6 = load(s5.0, base, "double"@, STy::F64, 2);
    let alt = s6.1;
    let s7 = lla_to_ecef(s6.0, lat_deg, lon_deg, alt);
    let rx = s7.1.0;
    let ry = s7.1.1;
    let rz = s7.1.2;
    let s8 = times(s7.0, lat_deg, float_const(DEG), true);
    let lat = s8.1;
    let s9 = times(s8.0, lon_deg, float_const(DEG), true);
    let lon = s9.1;
    let s10 = rotation(s9.0, lat, lon);
    let r00 = s10.1.0;
    let r01 = s10.1.1;
    let r10 = s10.1.2;
    let r11 = s10.1.3;
    let r12 = s10.1.4;
    let r20 = s10.1.5;
    let r21 = s10.1.6;
    let r22 = s10.1.7;
    let s11 = weighted(s10.0, r00, r10, r20, a0, a1, a2);
    let d0 = s11.1;
    let s12 = weighted(s11.0, r01, r11, r21, a0, a1, a2);
    let d1 = s12.1;
    let s13 = weighted(s12.0, float_const(ZERO_F), r12, r22, a0, a1, a2);
    let d2 = s13.1;
    let s14 = plus(s13.0, rx, d0, true);
    let o0 = s14.1;
    let s15 = plus(s14.0, ry, d1, true);
    let o1 = s15.1;
    let s16 = plus(s15.0, rz, d2, true);
    let o2 = s16.1;
    (s16.0, (o0, o1, o2))
}

/// Three numbers.
#[verifier::opaque]
pub open spec fn load3(cx: Cx, a: Text) -> (Cx, (Text, Text, Text)) {
    let s1 = load(cx, a, "double"@, STy::F64, 0);
    let x = s1.1;
    let s2 = load(s1.0, a, "double"@, STy::F64, 1);
    let y = s2.1;
    let s3 = load(s2.0, a, "double"@, STy::F64, 2);
    let z = s3.1;
    (s3.0, (x, y, z))
}

impl Module {
    pub fn bearing(&mut self, from: &str, to: &str) -> (r: String)
        ensures
            (final(self)@, r@) == bearing(old(self)@, from@, to@),
    {
        proof {
            reveal(bearing);
        }
        let deg = float_text(DEG);
        let rad = float_text(RAD);
        let full = float_text(FULL);
        let lat1_deg = self.load(from, "double", &Ty::F64, 0);
        let lon1_deg = self.load(from, "double", &Ty::F64, 1);
        let lat2_deg = self.load(to, "double", &Ty::F64, 0);
        let lon2_deg = self.load(to, "double", &Ty::F64, 1);
        let lat1 = self.times(lat1_deg.as_str(), deg.as_str(), true);
        let lon1 = self.times(lon1_deg.as_str(), deg.as_str(), true);
        let lat2 = self.times(lat2_deg.as_str(), deg.as_str(), true);
        let lon2 = self.times(lon2_deg.as_str(), deg.as_str(), true);
        let dlon = self.minus(lon2.as_str(), lon1.as_str());
        let sin_dlon = self.call1("@llvm.sin.f64", dlon.as_str());
        let cos_lat2 = self.call1("@llvm.cos.f64", lat2.as_str());
        let y = self.times(sin_dlon.as_str(), cos_lat2.as_str(), true);
        let cos_lat1 = self.call1("@llvm.cos.f64", lat1.as_str());
        let sin_lat2 = self.call1("@llvm.sin.f64", lat2.as_str());
        let term1 = self.times(cos_lat1.as_str(), sin_lat2.as_str(), true);
        let sin_lat1 = self.call1("@llvm.sin.f64", lat1.as_str());
        let cos_dlon = self.call1("@llvm.cos.f64", dlon.as_str());
        let t2a = self.times(sin_lat1.as_str(), cos_lat2.as_str(), true);
        let term2 = self.times(t2a.as_str(), cos_dlon.as_str(), true);
        let x = self.minus(term1.as_str(), term2.as_str());
        let ang = self.call2("@atan2", y.as_str(), x.as_str());
        let deg = self.times(ang.as_str(), rad.as_str(), true);
        let turned = self.plus(deg.as_str(), full.as_str(), true);
        let wrapped = self.define("bearing_wrap", cat4("frem double ", turned.as_str(), ", ", full.as_str()));
        wrapped
    }

    pub fn lla_to_ecef(&mut self, lat_deg: &str, lon_deg: &str, alt: &str) -> (r: (String, String, String))
        ensures
            (final(self)@, (r.0@, r.1@, r.2@)) == lla_to_ecef(old(self)@, lat_deg@, lon_deg@, alt@),
    {
        proof {
            reveal(lla_to_ecef);
        }
        let deg = float_text(DEG);
        let wgs_e2 = float_text(WGS_E2);
        let one_f = float_text(ONE_F);
        let wgs_a = float_text(WGS_A);
        let lat = self.times(lat_deg, deg.as_str(), true);
        let lon = self.times(lon_deg, deg.as_str(), true);
        let sin_lat = self.call1("@llvm.sin.f64", lat.as_str());
        let sin_lat_sq = self.times(sin_lat.as_str(), sin_lat.as_str(), true);
        let e2_sinsq = self.times(wgs_e2.as_str(), sin_lat_sq.as_str(), true);
        let one_minus = self.minus(one_f.as_str(), e2_sinsq.as_str());
        let sqrt_term = self.call1("@llvm.sqrt.f64", one_minus.as_str());
        let n = self.define("wgs84_n", cat4("fdiv double ", wgs_a.as_str(), ", ", sqrt_term.as_str()));
        let cos_lat = self.call1("@llvm.cos.f64", lat.as_str());
        let cos_lon = self.call1("@llvm.cos.f64", lon.as_str());
        let sin_lon = self.call1("@llvm.sin.f64", lon.as_str());
        let n_plus_alt = self.plus(n.as_str(), alt, true);
        let np_cos_lat = self.times(n_plus_alt.as_str(), cos_lat.as_str(), true);
        let x = self.times(np_cos_lat.as_str(), cos_lon.as_str(), true);
        let y = self.times(np_cos_lat.as_str(), sin_lon.as_str(), true);
        let one_minus_e2 = self.minus(one_f.as_str(), wgs_e2.as_str());
        let n_1me2 = self.times(n.as_str(), one_minus_e2.as_str(), true);
        let n_1me2_plus_alt = self.plus(n_1me2.as_str(), alt, true);
        let z = self.times(n_1me2_plus_alt.as_str(), sin_lat.as_str(), true);
        (x, y, z)
    }

    pub fn lla_round(&mut self, z: &str, p: &str, lat: &str) -> (r: (String, String))
        ensures
            (final(self)@, (r.0@, r.1@)) == lla_round(old(self)@, z@, p@, lat@),
    {
        proof {
            reveal(lla_round);
        }
        let wgs_e2 = float_text(WGS_E2);
        let one_f = float_text(ONE_F);
        let wgs_a = float_text(WGS_A);
        let sin_lat = self.call1("@llvm.sin.f64", lat);
        let sin_lat_sq = self.times(sin_lat.as_str(), sin_lat.as_str(), true);
        let e2_sinsq = self.times(wgs_e2.as_str(), sin_lat_sq.as_str(), true);
        let one_minus = self.minus(one_f.as_str(), e2_sinsq.as_str());
        let sqrt_term = self.call1("@llvm.sqrt.f64", one_minus.as_str());
        let n = self.define("wgs84_n", cat4("fdiv double ", wgs_a.as_str(), ", ", sqrt_term.as_str()));
        let cos_lat = self.call1("@llvm.cos.f64", lat);
        let p_over_cos = self.define("p_over_cos", cat4("fdiv double ", p, ", ", cos_lat.as_str()));
        let alt = self.minus(p_over_cos.as_str(), n.as_str());
        let n_plus_alt = self.plus(n.as_str(), alt.as_str(), true);
        let e2n = self.times(wgs_e2.as_str(), n.as_str(), true);
        let e2n_over = self.define("e2n_over", cat4("fdiv double ", e2n.as_str(), ", ", n_plus_alt.as_str()));
        let inner = self.minus(one_f.as_str(), e2n_over.as_str());
        let p_inner = self.times(p, inner.as_str(), true);
        let next = self.call2("@atan2", z, p_inner.as_str());
        (next, alt)
    }

    pub fn ecef_to_lla(&mut self, x: &str, y: &str, z: &str) -> (r: (String, String, String))
        ensures
            (final(self)@, (r.0@, r.1@, r.2@)) == ecef_to_lla(old(self)@, x@, y@, z@),
    {
        proof {
            reveal(ecef_to_lla);
        }
        let one_f = float_text(ONE_F);
        let wgs_e2 = float_text(WGS_E2);
        let rad = float_text(RAD);
        let lon = self.call2("@atan2", y, x);
        let x2 = self.times(x, x, true);
        let y2 = self.times(y, y, true);
        let x2y2 = self.plus(x2.as_str(), y2.as_str(), true);
        let p = self.call1("@llvm.sqrt.f64", x2y2.as_str());
        let one_minus_e2 = self.minus(one_f.as_str(), wgs_e2.as_str());
        let p_1me2 = self.times(p.as_str(), one_minus_e2.as_str(), true);
        let lat0 = self.call2("@atan2", z, p_1me2.as_str());
        let (lat1, _) = self.lla_round(z, p.as_str(), lat0.as_str());
        let (lat2, _) = self.lla_round(z, p.as_str(), lat1.as_str());
        let (lat3, _) = self.lla_round(z, p.as_str(), lat2.as_str());
        let (lat4, _) = self.lla_round(z, p.as_str(), lat3.as_str());
        let (lat5, alt) = self.lla_round(z, p.as_str(), lat4.as_str());
        let lat_deg = self.times(lat5.as_str(), rad.as_str(), true);
        let lon_deg = self.times(lon.as_str(), rad.as_str(), true);
        (lat_deg, lon_deg, alt)
    }

    pub fn rotation(&mut self, lat: &str, lon: &str) -> (r: (String, String, String, String, String, String, String, String))
        ensures
            (final(self)@, (r.0@, r.1@, r.2@, r.3@, r.4@, r.5@, r.6@, r.7@)) == rotation(old(self)@, lat@, lon@),
    {
        proof {
            reveal(rotation);
        }
        let sin_lat = self.call1("@llvm.sin.f64", lat);
        let cos_lat = self.call1("@llvm.cos.f64", lat);
        let sin_lon = self.call1("@llvm.sin.f64", lon);
        let cos_lon = self.call1("@llvm.cos.f64", lon);
        let neg_sin_lon = self.define("neg", cat2("fneg double ", sin_lon.as_str()));
        let neg_sin_lat = self.define("neg", cat2("fneg double ", sin_lat.as_str()));
        let r10 = self.times(neg_sin_lat.as_str(), cos_lon.as_str(), true);
        let r11 = self.times(neg_sin_lat.as_str(), sin_lon.as_str(), true);
        let r20 = self.times(cos_lat.as_str(), cos_lon.as_str(), true);
        let r21 = self.times(cos_lat.as_str(), sin_lon.as_str(), true);
        (neg_sin_lon, cos_lon, r10, r11, cos_lat, r20, r21, sin_lat)
    }

    pub fn weighted(&mut self, r0: &str, r1: &str, r2: &str, d0: &str, d1: &str, d2: &str) -> (r: String)
        ensures
            (final(self)@, r@) == weighted(old(self)@, r0@, r1@, r2@, d0@, d1@, d2@),
    {
        proof {
            reveal(weighted);
        }
        let t0 = self.times(r0, d0, true);
        let t1 = self.times(r1, d1, true);
        let t2 = self.times(r2, d2, true);
        let s01 = self.plus(t0.as_str(), t1.as_str(), true);
        let s = self.plus(s01.as_str(), t2.as_str(), true);
        s
    }

    pub fn ecef_to_enu(&mut self, a: &str, base: &str) -> (r: (String, String, String))
        ensures
            (final(self)@, (r.0@, r.1@, r.2@)) == ecef_to_enu(old(self)@, a@, base@),
    {
        proof {
            reveal(ecef_to_enu);
        }
        let deg = float_text(DEG);
        let zero_f = float_text(ZERO_F);
        let a0 = self.load(a, "double", &Ty::F64, 0);
        let a1 = self.load(a, "double", &Ty::F64, 1);
        let a2 = self.load(a, "double", &Ty::F64, 2);
        let lat_deg = self.load(base, "double", &Ty::F64, 0);
        let lon_deg = self.load(base, "double", &Ty::F64, 1);
        let alt = self.load(base, "double", &Ty::F64, 2);
        let (rx, ry, rz) = self.lla_to_ecef(lat_deg.as_str(), lon_deg.as_str(), alt.as_str());
        let lat = self.times(lat_deg.as_str(), deg.as_str(), true);
        let lon = self.times(lon_deg.as_str(), deg.as_str(), true);
        let (r00, r01, r10, r11, r12, r20, r21, r22) = self.rotation(lat.as_str(), lon.as_str());
        let d0 = self.minus(a0.as_str(), rx.as_str());
        let d1 = self.minus(a1.as_str(), ry.as_str());
        let d2 = self.minus(a2.as_str(), rz.as_str());
        let o0 = self.weighted(r00.as_str(), r01.as_str(), zero_f.as_str(), d0.as_str(), d1.as_str(), d2.as_str());
        let o1 = self.weighted(r10.as_str(), r11.as_str(), r12.as_str(), d0.as_str(), d1.as_str(), d2.as_str());
        let o2 = self.weighted(r20.as_str(), r21.as_str(), r22.as_str(), d0.as_str(), d1.as_str(), d2.as_str());
        (o0, o1, o2)
    }

    pub fn enu_to_ecef(&mut self, a: &str, base: &str) -> (r: (String, String, String))
        ensures
            (final(self)@, (r.0@, r.1@, r.2@)) == enu_to_ecef(old(self)@, a@, base@),
    {
        proof {
            reveal(enu_to_ecef);
        }
        let deg = float_text(DEG);
        let zero_f = float_text(ZERO_F);
        let a0 = self.load(a, "double", &Ty::F64, 0);
        let a1 = self.load(a, "double", &Ty::F64, 1);
        let a2 = self.load(a, "double", &Ty::F64, 2);
        let lat_deg = self.load(base, "double", &Ty::F64, 0);
        let lon_deg = self.load(base, "double", &Ty::F64, 1);
        let alt = self.load(base, "double", &Ty::F64, 2);
        let (rx, ry, rz) = self.lla_to_ecef(lat_deg.as_str(), lon_deg.as_str(), alt.as_str());
        let lat = self.times(lat_deg.as_str(), deg.as_str(), true);
        let lon = self.times(lon_deg.as_str(), deg.as_str(), true);
        let (r00, r01, r10, r11, r12, r20, r21, r22) = self.rotation(lat.as_str(), lon.as_str());
        let d0 = self.weighted(r00.as_str(), r10.as_str(), r20.as_str(), a0.as_str(), a1.as_str(), a2.as_str());
        let d1 = self.weighted(r01.as_str(), r11.as_str(), r21.as_str(), a0.as_str(), a1.as_str(), a2.as_str());
        let d2 = self.weighted(zero_f.as_str(), r12.as_str(), r22.as_str(), a0.as_str(), a1.as_str(), a2.as_str());
        let o0 = self.plus(rx.as_str(), d0.as_str(), true);
        let o1 = self.plus(ry.as_str(), d1.as_str(), true);
        let o2 = self.plus(rz.as_str(), d2.as_str(), true);
        (o0, o1, o2)
    }

    pub fn load3(&mut self, a: &str) -> (r: (String, String, String))
        ensures
            (final(self)@, (r.0@, r.1@, r.2@)) == load3(old(self)@, a@),
    {
        proof {
            reveal(load3);
        }
        let x = self.load(a, "double", &Ty::F64, 0);
        let y = self.load(a, "double", &Ty::F64, 1);
        let z = self.load(a, "double", &Ty::F64, 2);
        (x, y, z)
    }
}

} // verus!
