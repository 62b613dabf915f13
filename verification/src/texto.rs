use vstd::prelude::*;

verus! {

/// Characters with the Unicode `White_Space` property; this is the set that
/// `char::is_whitespace` and the regular-expression class `\s` accept.
pub open spec fn espacio_unicode(c: char) -> bool {
    let n = c as u32;
    ||| (0x09 <= n && n <= 0x0D)
    ||| n == 0x20 || n == 0x85 || n == 0xA0 || n == 0x1680
    ||| (0x2000 <= n && n <= 0x200A)
    ||| n == 0x2028 || n == 0x2029 || n == 0x202F || n == 0x205F || n == 0x3000
}

/// Whether `c` has the Unicode `White_Space` property (what
/// `char::is_whitespace` decides).
fn es_espacio(c: char) -> (r: bool)
    ensures
        r == espacio_unicode(c),
{
    let n = c as u32;
    (0x09 <= n && n <= 0x0D) || n == 0x20 || n == 0x85 || n == 0xA0 || n == 0x1680 || (0x2000
        <= n && n <= 0x200A) || n == 0x2028 || n == 0x2029 || n == 0x202F || n == 0x205F || n
        == 0x3000
}

/// `String::push`: appends one character.
#[verifier::external_body]
fn empujar(s: &mut String, c: char)
    ensures
        final(s)@ == old(s)@.push(c),
{
    s.push(c)
}

/// The characters of a string, in order.
pub fn chars_de(s: &str) -> (v: Vec<char>)
    ensures
        v@ == s@,
{
    let mut v: Vec<char> = Vec::new();
    for c in it: s.chars()
        invariant
            v@ == it.seq().take(it.index()),
            it.seq() == s@,
    {
        v.push(c);
    }
    v
}

/// The string made of the given characters.
pub fn cadena_de(v: &Vec<char>) -> (s: String)
    ensures
        s@ == v@,
{
    let mut s = String::new();
    let mut i: usize = 0;
    while i < v.len()
        invariant
            i <= v.len(),
            s@ == v@.take(i as int),
        decreases v.len() - i,
    {
        empujar(&mut s, v[i]);
        i += 1;
        assert(v@.take(i as int) == v@.take(i - 1).push(v@[i - 1]));
    }
    assert(v@.take(v.len() as int) == v@);
    s
}

/// The character separators and trimming sets used by the cleaning rules.
#[derive(Clone, Copy, PartialEq, Eq, Debug)]
pub enum Criterio {
    /// Unicode whitespace (`str::trim`, `split_whitespace`).
    Blancos,
    /// The plain space only (`strip_chars(" ")`).
    Espacio,
    /// The underscore (`split('_')`).
    GuionBajo,
}

pub open spec fn cumple_criterio(k: Criterio, c: char) -> bool {
    match k {
        Criterio::Blancos => espacio_unicode(c),
        Criterio::Espacio => c == ' ',
        Criterio::GuionBajo => c == '_',
    }
}

pub fn cumple(k: Criterio, c: char) -> (r: bool)
    ensures
        r == cumple_criterio(k, c),
{
    match k {
        Criterio::Blancos => es_espacio(c),
        Criterio::Espacio => c == ' ',
        Criterio::GuionBajo => c == '_',
    }
}

/// `s` without its leading characters of kind `k`.
pub open spec fn sin_inicio(s: Seq<char>, k: Criterio) -> Seq<char>
    decreases s.len(),
{
    if s.len() > 0 && cumple_criterio(k, s[0]) {
        sin_inicio(s.drop_first(), k)
    } else {
        s
    }
}

/// `s` without its trailing characters of kind `k`.
pub open spec fn sin_final(s: Seq<char>, k: Criterio) -> Seq<char>
    decreases s.len(),
{
    if s.len() > 0 && cumple_criterio(k, s.last()) {
        sin_final(s.drop_last(), k)
    } else {
        s
    }
}

/// `s` without leading and trailing characters of kind `k`.
pub open spec fn recortado(s: Seq<char>, k: Criterio) -> Seq<char> {
    sin_final(sin_inicio(s, k), k)
}

proof fn lema_sin_inicio(s: Seq<char>, k: Criterio, i: int)
    requires
        0 <= i <= s.len(),
        forall|j: int| 0 <= j < i ==> cumple_criterio(k, #[trigger] s[j]),
        i == s.len() || !cumple_criterio(k, s[i]),
    ensures
        sin_inicio(s, k) == s.skip(i),
    decreases i,
{
    if i == 0 {
        assert(s.skip(0) == s);
    } else {
        assert(cumple_criterio(k, s[0]));
        let t = s.drop_first();
        assert forall|j: int| 0 <= j < i - 1 implies cumple_criterio(k, #[trigger] t[j]) by {
            assert(t[j] == s[j + 1]);
        }
        lema_sin_inicio(t, k, i - 1);
        assert(t.skip(i - 1) == s.skip(i));
    }
}

proof fn lema_sin_final(s: Seq<char>, k: Criterio, j: int)
    requires
        0 <= j <= s.len(),
        forall|m: int| j <= m < s.len() ==> cumple_criterio(k, #[trigger] s[m]),
        j == 0 || !cumple_criterio(k, s[j - 1]),
    ensures
        sin_final(s, k) == s.take(j),
    decreases s.len() - j,
{
    if j == s.len() {
        assert(s.take(j) == s);
    } else {
        assert(cumple_criterio(k, s.last()));
        let t = s.drop_last();
        assert forall|m: int| j <= m < t.len() implies cumple_criterio(k, #[trigger] t[m]) by {
            assert(t[m] == s[m]);
        }
        lema_sin_final(t, k, j);
        assert(t.take(j) == s.take(j));
    }
}

proof fn lema_sin_inicio_existe(s: Seq<char>, k: Criterio)
    ensures
        exists|i: int|
            0 <= i <= s.len() && sin_inicio(s, k) == s.skip(i) && (forall|m: int|
                0 <= m < i ==> cumple_criterio(k, #[trigger] s[m])) && (i < s.len()
                ==> !cumple_criterio(k, s[i])),
    decreases s.len(),
{
    if s.len() > 0 && cumple_criterio(k, s[0]) {
        let t = s.drop_first();
        lema_sin_inicio_existe(t, k);
        let i = choose|i: int|
            0 <= i <= t.len() && sin_inicio(t, k) == t.skip(i) && (forall|m: int|
                0 <= m < i ==> cumple_criterio(k, #[trigger] t[m])) && (i < t.len()
                ==> !cumple_criterio(k, t[i]));
        assert(t.skip(i) =~= s.skip(i + 1));
        assert forall|m: int| 0 <= m < i + 1 implies cumple_criterio(k, #[trigger] s[m]) by {
            if m > 0 {
                assert(s[m] == t[m - 1]);
            }
        }
        if i + 1 < s.len() {
            assert(s[i + 1] == t[i]);
        }
    } else {
        assert(s.skip(0) =~= s);
    }
}

proof fn lema_sin_final_existe(s: Seq<char>, k: Criterio)
    ensures
        exists|j: int|
            0 <= j <= s.len() && sin_final(s, k) == s.take(j) && (forall|m: int|
                j <= m < s.len() ==> cumple_criterio(k, #[trigger] s[m])) && (j > 0
                ==> !cumple_criterio(k, s[j - 1])),
    decreases s.len(),
{
    if s.len() > 0 && cumple_criterio(k, s.last()) {
        let t = s.drop_last();
        lema_sin_final_existe(t, k);
        let j = choose|j: int|
            0 <= j <= t.len() && sin_final(t, k) == t.take(j) && (forall|m: int|
                j <= m < t.len() ==> cumple_criterio(k, #[trigger] t[m])) && (j > 0
                ==> !cumple_criterio(k, t[j - 1]));
        assert(t.take(j) =~= s.take(j));
        assert forall|m: int| j <= m < s.len() implies cumple_criterio(k, #[trigger] s[m]) by {
            if m < t.len() {
                assert(s[m] == t[m]);
            }
        }
        if j > 0 {
            assert(s[j - 1] == t[j - 1]);
        }
    } else {
        assert(s.take(s.len() as int) =~= s);
    }
}

/// Trimming keeps a contiguous part of the text: everything before it and
/// after it is of kind `k`, and its first and last characters are not.
pub proof fn lema_recortado_extremos(s: Seq<char>, k: Criterio)
    ensures
        exists|i: int, j: int|
            0 <= i <= j <= s.len() && recortado(s, k) == s.subrange(i, j) && (forall|m: int|
                0 <= m < i ==> cumple_criterio(k, #[trigger] s[m])) && (forall|m: int|
                j <= m < s.len() ==> cumple_criterio(k, #[trigger] s[m])) && (i < j ==> !cumple_criterio(k, s[i])
                && !cumple_criterio(k, s[j - 1])),
{
    lema_sin_inicio_existe(s, k);
    let i = choose|i: int|
        0 <= i <= s.len() && sin_inicio(s, k) == s.skip(i) && (forall|m: int|
            0 <= m < i ==> cumple_criterio(k, #[trigger] s[m])) && (i < s.len()
            ==> !cumple_criterio(k, s[i]));
    let t = s.skip(i);
    lema_sin_final_existe(t, k);
    let j = choose|j: int|
        0 <= j <= t.len() && sin_final(t, k) == t.take(j) && (forall|m: int|
            j <= m < t.len() ==> cumple_criterio(k, #[trigger] t[m])) && (j > 0
            ==> !cumple_criterio(k, t[j - 1]));
    assert(t.take(j) =~= s.subrange(i, i + j));
    assert forall|m: int| i + j <= m < s.len() implies cumple_criterio(k, #[trigger] s[m]) by {
        assert(s[m] == t[m - i]);
    }
    if j > 0 {
        assert(t[0] == s[i]);
        assert(t[j - 1] == s[i + j - 1]);
    }
    assert(exists|i2: int, j2: int|
        0 <= i2 <= j2 <= s.len() && recortado(s, k) == s.subrange(i2, j2) && (forall|m: int|
            0 <= m < i2 ==> cumple_criterio(k, #[trigger] s[m])) && (forall|m: int|
            j2 <= m < s.len() ==> cumple_criterio(k, #[trigger] s[m])) && (i2 < j2 ==> !cumple_criterio(k, s[i2])
            && !cumple_criterio(k, s[j2 - 1])) && i2 == i && j2 == i + j);
}

/// The characters `v[a..b]`.
pub fn subrango(v: &Vec<char>, a: usize, b: usize) -> (r: Vec<char>)
    requires
        a <= b <= v.len(),
    ensures
        r@ == v@.subrange(a as int, b as int),
{
    let mut r: Vec<char> = Vec::new();
    let mut i = a;
    while i < b
        invariant
            a <= i <= b <= v.len(),
            r@ == v@.subrange(a as int, i as int),
        decreases b - i,
    {
        r.push(v[i]);
        i += 1;
    }
    r
}

/// Removes leading and trailing characters of kind `k` (`str::trim` for
/// whitespace, `strip_chars` for a set of characters).
pub fn recortar(s: &Vec<char>, k: Criterio) -> (r: Vec<char>)
    ensures
        r@ == recortado(s@, k),
{
    let n = s.len();
    let mut i: usize = 0;
    while i < n && cumple(k, s[i])
        invariant
            i <= n == s.len(),
            forall|j: int| 0 <= j < i ==> cumple_criterio(k, #[trigger] s@[j]),
        decreases n - i,
    {
        i += 1;
    }
    proof {
        lema_sin_inicio(s@, k, i as int);
    }
    let mut j: usize = n;
    while j > i && cumple(k, s[j - 1])
        invariant
            i <= j <= n == s.len(),
            forall|m: int| j <= m < n ==> cumple_criterio(k, #[trigger] s@[m]),
        decreases j,
    {
        j -= 1;
    }
    proof {
        let t = s@.skip(i as int);
        assert forall|m: int| j - i <= m < t.len() implies cumple_criterio(k, #[trigger] t[m]) by {
            assert(t[m] == s@[m + i]);
        }
        if j > i {
            assert(t[j - i - 1] == s@[j - 1]);
        }
        lema_sin_final(t, k, j - i);
        assert(t.take(j - i) == s@.subrange(i as int, j as int));
    }
    subrango(s, i, j)
}

/// Replacement of every non-overlapping occurrence of `p` in `s`, scanning
/// from the left, by `r` (`str::replace` for a non-empty pattern).
pub open spec fn reemplazado(s: Seq<char>, p: Seq<char>, r: Seq<char>) -> Seq<char>
    decreases s.len(),
{
    if p.len() == 0 || s.len() < p.len() {
        s
    } else if s.take(p.len() as int) == p {
        r + reemplazado(s.skip(p.len() as int), p, r)
    } else {
        seq![s[0]] + reemplazado(s.drop_first(), p, r)
    }
}

/// Whether `p` occurs in `s` at position `i`.
fn aparece_en(s: &Vec<char>, i: usize, p: &Vec<char>) -> (b: bool)
    requires
        i + p.len() <= s.len(),
    ensures
        b == (s@.subrange(i as int, i + p.len()) == p@),
{
    let mut k: usize = 0;
    while k < p.len()
        invariant
            k <= p.len(),
            i + p.len() <= s.len(),
            forall|m: int| 0 <= m < k ==> s@[i + m] == p@[m],
        decreases p.len() - k,
    {
        if s[i + k] != p[k] {
            assert(s@.subrange(i as int, i + p.len())[k as int] != p@[k as int]);
            return false;
        }
        k += 1;
    }
    assert(s@.subrange(i as int, i + p.len()) =~= p@);
    true
}

/// Appends the characters of `r` to `out`.
pub fn extender(out: &mut Vec<char>, r: &Vec<char>)
    ensures
        final(out)@ == old(out)@ + r@,
{
    let mut k: usize = 0;
    while k < r.len()
        invariant
            k <= r.len(),
            out@ == old(out)@ + r@.take(k as int),
        decreases r.len() - k,
    {
        out.push(r[k]);
        k += 1;
        assert(r@.take(k as int) == r@.take(k - 1).push(r@[k - 1]));
    }
    assert(r@.take(r.len() as int) == r@);
}

/// `str::replace` with a non-empty pattern.
pub fn reemplazar(s: &Vec<char>, p: &Vec<char>, r: &Vec<char>) -> (res: Vec<char>)
    requires
        p.len() > 0,
    ensures
        res@ == reemplazado(s@, p@, r@),
{
    let n = s.len();
    let m = p.len();
    let mut out: Vec<char> = Vec::new();
    let mut i: usize = 0;
    assert(s@.skip(0) == s@);
    while i < n
        invariant
            i <= n == s.len(),
            m == p.len() > 0,
            reemplazado(s@, p@, r@) == out@ + reemplazado(s@.skip(i as int), p@, r@),
        decreases n - i,
    {
        let ghost t = s@.skip(i as int);
        if m <= n - i && aparece_en(s, i, p) {
            assert(t.take(m as int) == s@.subrange(i as int, i + m));
            assert(t.skip(m as int) == s@.skip(i + m));
            extender(&mut out, r);
            i += m;
        } else {
            if m <= n - i {
                assert(t.take(m as int) == s@.subrange(i as int, i + m));
            }
            assert(t.drop_first() == s@.skip(i + 1));
            assert(t[0] == s@[i as int]);
            proof {
                if t.len() < m {
                    assert(t == seq![t[0]] + t.drop_first());
                }
            }
            out.push(s[i]);
            i += 1;
        }
    }
    assert(s@.skip(n as int) == Seq::<char>::empty());
    out
}

/// The pieces of `s` between separators of kind `k`, empty pieces included
/// (`str::split` with a character predicate).
pub open spec fn dividido(s: Seq<char>, k: Criterio) -> Seq<Seq<char>>
    decreases s.len(),
{
    if s.len() == 0 {
        seq![Seq::<char>::empty()]
    } else {
        let prev = dividido(s.drop_last(), k);
        if cumple_criterio(k, s.last()) {
            prev.push(Seq::<char>::empty())
        } else {
            prev.update(prev.len() - 1, prev.last().push(s.last()))
        }
    }
}

pub proof fn lema_dividido_no_vacio(s: Seq<char>, k: Criterio)
    ensures
        dividido(s, k).len() >= 1,
    decreases s.len(),
{
    if s.len() > 0 {
        lema_dividido_no_vacio(s.drop_last(), k);
    }
}

/// The views of a sequence of strings.
pub open spec fn vista_textos(v: Seq<String>) -> Seq<Seq<char>> {
    v.map_values(|s: String| s@)
}

/// The views of a vector of character vectors.
pub open spec fn vistas(v: Seq<Vec<char>>) -> Seq<Seq<char>> {
    v.map_values(|x: Vec<char>| x@)
}

/// Splits `s` at every separator of kind `k`.
pub fn dividir(s: &Vec<char>, k: Criterio) -> (r: Vec<Vec<char>>)
    ensures
        vistas(r@) == dividido(s@, k),
{
    let mut partes: Vec<Vec<char>> = Vec::new();
    let mut actual: Vec<char> = Vec::new();
    let mut i: usize = 0;
    assert(s@.take(0) == Seq::<char>::empty());
    while i < s.len()
        invariant
            i <= s.len(),
            vistas(partes@).push(actual@) == dividido(s@.take(i as int), k),
        decreases s.len() - i,
    {
        let c = s[i];
        let ghost antes = s@.take(i as int);
        assert(s@.take(i + 1).drop_last() == antes);
        assert(s@.take(i + 1).last() == c);
        if cumple(k, c) {
            let terminado = actual;
            partes.push(terminado);
            actual = Vec::new();
            assert(vistas(partes@) == vistas(partes@.drop_last()).push(terminado@));
        } else {
            actual.push(c);
        }
        i += 1;
    }
    let ghost previas = partes@;
    partes.push(actual);
    assert(vistas(partes@) == vistas(previas).push(actual@));
    assert(s@.take(s.len() as int) == s@);
    partes
}

/// The pieces of `ps` joined with `sep` between consecutive pieces
/// (`join`).
pub open spec fn unido(ps: Seq<Seq<char>>, sep: Seq<char>) -> Seq<char>
    decreases ps.len(),
{
    if ps.len() == 0 {
        seq![]
    } else if ps.len() == 1 {
        ps[0]
    } else {
        unido(ps.drop_last(), sep) + sep + ps.last()
    }
}

/// Joins the pieces with `sep` between consecutive pieces.
pub fn unir(ps: &Vec<Vec<char>>, sep: &Vec<char>) -> (r: Vec<char>)
    ensures
        r@ == unido(vistas(ps@), sep@),
{
    let mut out: Vec<char> = Vec::new();
    let mut i: usize = 0;
    while i < ps.len()
        invariant
            i <= ps.len(),
            out@ == unido(vistas(ps@).take(i as int), sep@),
        decreases ps.len() - i,
    {
        let ghost t = vistas(ps@).take(i + 1);
        assert(t.drop_last() == vistas(ps@).take(i as int));
        assert(t.last() == ps@[i as int]@);
        if i > 0 {
            extender(&mut out, sep);
        }
        extender(&mut out, &ps[i]);
        i += 1;
    }
    assert(vistas(ps@).take(ps.len() as int) == vistas(ps@));
    out
}

/// The decimal digit of a number below ten.
pub open spec fn digito(d: nat) -> char {
    ((48 + d) as u8) as char
}

pub proof fn lema_digito(d: nat)
    requires
        d < 10,
    ensures
        digito(d) as u32 == 48 + d,
{
}

/// The decimal representation of `n`, without leading zeros.
pub open spec fn decimal(n: nat) -> Seq<char>
    decreases n,
{
    if n < 10 {
        seq![digito(n)]
    } else {
        decimal(n / 10).push(digito(n % 10))
    }
}

pub proof fn lema_decimal_no_vacio(n: nat)
    ensures
        decimal(n).len() >= 1,
        n >= 10 ==> decimal(n).len() >= 2,
    decreases n,
{
    if n >= 10 {
        lema_decimal_no_vacio(n / 10);
    }
}

/// Two numbers with the same decimal representation are equal.
pub proof fn lema_decimal_inyectivo(a: nat, b: nat)
    requires
        decimal(a) == decimal(b),
    ensures
        a == b,
    decreases a,
{
    lema_decimal_no_vacio(a);
    lema_decimal_no_vacio(b);
    if a < 10 && b < 10 {
        assert(decimal(a)[0] == digito(a));
        assert(decimal(b)[0] == digito(b));
        lema_digito(a);
        lema_digito(b);
        assert(digito(a) as u32 == digito(b) as u32);
    } else if a >= 10 && b >= 10 {
        assert(decimal(a).last() == digito(a % 10));
        assert(decimal(b).last() == digito(b % 10));
        assert(decimal(a).drop_last() == decimal(a / 10));
        assert(decimal(b).drop_last() == decimal(b / 10));
        lema_decimal_inyectivo(a / 10, b / 10);
        lema_digito(a % 10);
        lema_digito(b % 10);
        assert(digito(a % 10) as u32 == digito(b % 10) as u32);
        assert(a == 10 * (a / 10) + a % 10);
        assert(b == 10 * (b / 10) + b % 10);
    } else {
        lema_decimal_no_vacio(a / 10);
        lema_decimal_no_vacio(b / 10);
    }
}

/// The decimal representation of `n` (`n.to_string()`).
pub fn a_decimal(n: u128) -> (r: Vec<char>)
    ensures
        r@ == decimal(n as nat),
    decreases n,
{
    let d: u8 = (n % 10) as u8;
    let c = (48u8 + d) as char;
    if n < 10 {
        vec![c]
    } else {
        let mut r = a_decimal(n / 10);
        r.push(c);
        r
    }
}

/// Lexicographic order of texts by code point (the order of `String`).
pub open spec fn menor_lex(a: Seq<char>, b: Seq<char>) -> bool
    decreases a.len(),
{
    if a.len() == 0 {
        b.len() > 0
    } else if b.len() == 0 {
        false
    } else if a[0] < b[0] {
        true
    } else if a[0] == b[0] {
        menor_lex(a.drop_first(), b.drop_first())
    } else {
        false
    }
}

pub proof fn lema_lex_irreflexivo(a: Seq<char>)
    ensures
        !menor_lex(a, a),
    decreases a.len(),
{
    if a.len() > 0 {
        lema_lex_irreflexivo(a.drop_first());
    }
}

pub proof fn lema_lex_total(a: Seq<char>, b: Seq<char>)
    ensures
        a == b || menor_lex(a, b) || menor_lex(b, a),
    decreases a.len(),
{
    if a.len() > 0 && b.len() > 0 {
        if a[0] == b[0] {
            lema_lex_total(a.drop_first(), b.drop_first());
            if a.drop_first() == b.drop_first() {
                assert(a == seq![a[0]] + a.drop_first());
                assert(b == seq![b[0]] + b.drop_first());
            }
        }
    } else if a.len() == 0 && b.len() == 0 {
        assert(a == b);
    }
}

pub proof fn lema_lex_transitivo(a: Seq<char>, b: Seq<char>, c: Seq<char>)
    requires
        menor_lex(a, b),
        menor_lex(b, c),
    ensures
        menor_lex(a, c),
    decreases a.len(),
{
    if a.len() > 0 && b.len() > 0 && c.len() > 0 {
        if a[0] == b[0] && b[0] == c[0] {
            lema_lex_transitivo(a.drop_first(), b.drop_first(), c.drop_first());
        }
    }
}

pub proof fn lema_lex_asimetrico(a: Seq<char>, b: Seq<char>)
    requires
        menor_lex(a, b),
    ensures
        !menor_lex(b, a),
{
    if menor_lex(b, a) {
        lema_lex_transitivo(a, b, a);
        lema_lex_irreflexivo(a);
    }
}

proof fn lema_lex_prefijo(a: Seq<char>, b: Seq<char>, i: int)
    requires
        0 <= i <= a.len(),
        i <= b.len(),
        forall|j: int| 0 <= j < i ==> a[j] == b[j],
    ensures
        menor_lex(a, b) == menor_lex(a.skip(i), b.skip(i)),
    decreases i,
{
    if i > 0 {
        lema_lex_prefijo(a.drop_first(), b.drop_first(), i - 1);
        assert(a.drop_first().skip(i - 1) == a.skip(i));
        assert(b.drop_first().skip(i - 1) == b.skip(i));
    } else {
        assert(a.skip(0) == a);
        assert(b.skip(0) == b);
    }
}

/// Whether `a` comes before `b` in lexicographic order.
pub fn menor(a: &Vec<char>, b: &Vec<char>) -> (r: bool)
    ensures
        r == menor_lex(a@, b@),
{
    let mut i: usize = 0;
    while i < a.len() && i < b.len() && a[i] == b[i]
        invariant
            i <= a.len(),
            i <= b.len(),
            forall|j: int| 0 <= j < i ==> a@[j] == b@[j],
        decreases a.len() - i,
    {
        i += 1;
    }
    proof {
        lema_lex_prefijo(a@, b@, i as int);
    }
    if i == a.len() {
        i < b.len()
    } else if i == b.len() {
        false
    } else {
        proof {
            assert(a@.skip(i as int)[0] == a@[i as int]);
            assert(b@.skip(i as int)[0] == b@[i as int]);
        }
        a[i] < b[i]
    }
}

} // verus!
