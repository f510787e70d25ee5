//! The Fibonacci sequence and the square criterion for its members.

use vstd::prelude::*;

verus! {

/// The Fibonacci numbers: 0, 1, and from there on the sum of the two before.
pub open spec fn fib(n: nat) -> nat
    decreases n,
{
    if n == 0 {
        0
    } else if n == 1 {
        1
    } else {
        fib((n - 1) as nat) + fib((n - 2) as nat)
    }
}

/// Whether `x` is the square of a whole number.
pub open spec fn is_square(x: int) -> bool {
    exists|r: int| 0 <= r && #[trigger] (r * r) == x
}

/// The first twenty-one terms.
pub proof fn lemma_fib_first_terms()
    ensures
        fib(0) == 0,
        fib(1) == 1,
        fib(2) == 1,
        fib(3) == 2,
        fib(4) == 3,
        fib(5) == 5,
        fib(6) == 8,
        fib(7) == 13,
        fib(8) == 21,
        fib(9) == 34,
        fib(10) == 55,
        fib(11) == 89,
        fib(12) == 144,
        fib(13) == 233,
        fib(14) == 377,
        fib(15) == 610,
        fib(16) == 987,
        fib(17) == 1597,
        fib(18) == 2584,
        fib(19) == 4181,
        fib(20) == 6765,
{
    assert(fib(0) == 0);
    assert(fib(1) == 1);
    assert(fib(2) == 1);
    assert(fib(3) == 2);
    assert(fib(4) == 3);
    assert(fib(5) == 5);
    assert(fib(6) == 8);
    assert(fib(7) == 13);
    assert(fib(8) == 21);
    assert(fib(9) == 34);
    assert(fib(10) == 55);
    assert(fib(11) == 89);
    assert(fib(12) == 144);
    assert(fib(13) == 233);
    assert(fib(14) == 377);
    assert(fib(15) == 610);
    assert(fib(16) == 987);
    assert(fib(17) == 1597);
    assert(fib(18) == 2584);
    assert(fib(19) == 4181);
    assert(fib(20) == 6765);
}

/// The last term that fits a 64-bit word.
pub proof fn lemma_fib_last_term()
    ensures
        fib(93) == 12200160415121876738,
{
    lemma_fib_first_terms();
    assert(fib(21) == 10946);
    assert(fib(22) == 17711);
    assert(fib(23) == 28657);
    assert(fib(24) == 46368);
    assert(fib(25) == 75025);
    assert(fib(26) == 121393);
    assert(fib(27) == 196418);
    assert(fib(28) == 317811);
    assert(fib(29) == 514229);
    assert(fib(30) == 832040);
    assert(fib(31) == 1346269);
    assert(fib(32) == 2178309);
    assert(fib(33) == 3524578);
    assert(fib(34) == 5702887);
    assert(fib(35) == 9227465);
    assert(fib(36) == 14930352);
    assert(fib(37) == 24157817);
    assert(fib(38) == 39088169);
    assert(fib(39) == 63245986);
    assert(fib(40) == 102334155);
    assert(fib(41) == 165580141);
    assert(fib(42) == 267914296);
    assert(fib(43) == 433494437);
    assert(fib(44) == 701408733);
    assert(fib(45) == 1134903170);
    assert(fib(46) == 1836311903);
    assert(fib(47) == 2971215073);
    assert(fib(48) == 4807526976);
    assert(fib(49) == 7778742049);
    assert(fib(50) == 12586269025);
    assert(fib(51) == 20365011074);
    assert(fib(52) == 32951280099);
    assert(fib(53) == 53316291173);
    assert(fib(54) == 86267571272);
    assert(fib(55) == 139583862445);
    assert(fib(56) == 225851433717);
    assert(fib(57) == 365435296162);
    assert(fib(58) == 591286729879);
    assert(fib(59) == 956722026041);
    assert(fib(60) == 1548008755920);
    assert(fib(61) == 2504730781961);
    assert(fib(62) == 4052739537881);
    assert(fib(63) == 6557470319842);
    assert(fib(64) == 10610209857723);
    assert(fib(65) == 17167680177565);
    assert(fib(66) == 27777890035288);
    assert(fib(67) == 44945570212853);
    assert(fib(68) == 72723460248141);
    assert(fib(69) == 117669030460994);
    assert(fib(70) == 190392490709135);
    assert(fib(71) == 308061521170129);
    assert(fib(72) == 498454011879264);
    assert(fib(73) == 806515533049393);
    assert(fib(74) == 1304969544928657);
    assert(fib(75) == 2111485077978050);
    assert(fib(76) == 3416454622906707);
    assert(fib(77) == 5527939700884757);
    assert(fib(78) == 8944394323791464);
    assert(fib(79) == 14472334024676221);
    assert(fib(80) == 23416728348467685);
    assert(fib(81) == 37889062373143906);
    assert(fib(82) == 61305790721611591);
    assert(fib(83) == 99194853094755497);
    assert(fib(84) == 160500643816367088);
    assert(fib(85) == 259695496911122585);
    assert(fib(86) == 420196140727489673);
    assert(fib(87) == 679891637638612258);
    assert(fib(88) == 1100087778366101931);
    assert(fib(89) == 1779979416004714189);
    assert(fib(90) == 2880067194370816120);
    assert(fib(91) == 4660046610375530309);
    assert(fib(92) == 7540113804746346429);
    assert(fib(93) == 12200160415121876738);
}

/// The sequence never decreases.
pub proof fn lemma_fib_monotone(i: nat, j: nat)
    requires
        i <= j,
    ensures
        fib(i) <= fib(j),
    decreases j,
{
    if i < j {
        lemma_fib_monotone(i, (j - 1) as nat);
        if j >= 2 {
            assert(fib(j) == fib((j - 1) as nat) + fib((j - 2) as nat));
        }
    }
}

/// Whether `n` is a term of the Fibonacci sequence.
pub open spec fn is_fibonacci_number(n: nat) -> bool {
    exists|k: nat| fib(k) == n
}

/// Whether `n` passes the square criterion: `5 * n * n + 4` or
/// `5 * n * n - 4` is a perfect square.
pub open spec fn passes_square_test(n: int) -> bool {
    is_square(5 * n * n + 4) || is_square(5 * n * n - 4)
}

/// 1 for even `k`, -1 for odd `k`.
pub open spec fn alternating(k: nat) -> int {
    if k % 2 == 0 {
        1
    } else {
        -1
    }
}

/// The form that consecutive terms of the sequence take the values 1 and
/// -1 on, in turn.
pub open spec fn cassini_form(a: int, b: int) -> int {
    b * b - a * b - a * a
}

/// Cassini's identity, in the form that relates two consecutive terms.
pub proof fn lemma_cassini(k: nat)
    ensures
        cassini_form(fib(k) as int, fib(k + 1) as int) == alternating(k),
    decreases k,
{
    if k == 0 {
        assert(fib(0) == 0);
        assert(fib(1) == 1);
    } else {
        lemma_cassini((k - 1) as nat);
        let a = fib((k - 1) as nat) as int;
        let b = fib(k) as int;
        assert(fib(k + 1) == a + b);
        assert(cassini_form(b, a + b) == -cassini_form(a, b)) by (nonlinear_arith);
    }
}

/// Every term of the sequence passes the square criterion.
pub proof fn lemma_fibonacci_passes(k: nat)
    ensures
        passes_square_test(fib(k) as int),
{
    lemma_cassini(k);
    lemma_fib_monotone(k, k + 1);
    let a = fib(k) as int;
    let b = fib(k + 1) as int;
    let r = 2 * b - a;
    assert(r * r == 5 * a * a + 4 * cassini_form(a, b)) by (nonlinear_arith)
        requires
            r == 2 * b - a,
    ;
    if k % 2 == 0 {
        assert(r * r == 5 * a * a + 4);
    } else {
        assert(r * r == 5 * a * a - 4);
    }
}

/// Two numbers `0 <= a <= b`, `b` positive, on which the form takes the
/// value 1 or -1 are consecutive terms of the sequence. The result is the
/// index of the first.
pub proof fn lemma_descent(a: int, b: int) -> (k: nat)
    requires
        0 <= a <= b,
        1 <= b,
        cassini_form(a, b) == 1 || cassini_form(a, b) == -1,
    ensures
        fib(k) == a,
        fib(k + 1) == b,
    decreases b,
{
    if a == 0 {
        assert(b == 1) by (nonlinear_arith)
            requires
                b >= 1,
                b * b - 0 * b - 0 * 0 == 1 || b * b - 0 * b - 0 * 0 == -1,
        ;
        assert(fib(0) == 0);
        assert(fib(1) == 1);
        0
    } else if a == b {
        assert(b == 1) by (nonlinear_arith)
            requires
                b >= 1,
                b * b - b * b - b * b == 1 || b * b - b * b - b * b == -1,
        ;
        assert(fib(0) == 0);
        assert(fib(1) == 1);
        assert(fib(2) == 1);
        1
    } else {
        assert(b <= 2 * a) by (nonlinear_arith)
            requires
                1 <= a < b,
                b * b - a * b - a * a == 1 || b * b - a * b - a * a == -1,
        ;
        assert(cassini_form(b - a, a) == -cassini_form(a, b)) by (nonlinear_arith);
        let j = lemma_descent(b - a, a);
        assert(fib(j + 2) == fib(j + 1) + fib(j));
        j + 1
    }
}

/// A number whose square test succeeds is a term of the sequence. `root`
/// is the square root that the test found; the result is the index of `n`.
pub proof fn lemma_square_gives_index(n: int, root: int) -> (k: nat)
    requires
        0 <= n,
        0 <= root,
        root * root == 5 * n * n + 4 || root * root == 5 * n * n - 4,
    ensures
        fib(k) == n,
{
    if n == 0 {
        assert(fib(0) == 0);
        0
    } else {
        // The root has the parity of n and lies between n and 3 * n.
        assert(root >= n) by (nonlinear_arith)
            requires
                n >= 1,
                root >= 0,
                root * root == 5 * n * n + 4 || root * root == 5 * n * n - 4,
        ;
        assert(root <= 3 * n) by (nonlinear_arith)
            requires
                n >= 1,
                root >= 0,
                root * root == 5 * n * n + 4 || root * root == 5 * n * n - 4,
        ;
        let half = (root - n) / 2;
        assert((root - n) % 2 == 0) by {
            lemma_same_parity(n, root);
        }
        assert(root == n + 2 * half);
        assert(cassini_form(half, n) == 1 || cassini_form(half, n) == -1) by (nonlinear_arith)
            requires
                root == n + 2 * half,
                root * root == 5 * n * n + 4 || root * root == 5 * n * n - 4,
        ;
        let j = lemma_descent(half, n);
        j + 1
    }
}

/// A root of the square test has the parity of the number tested.
pub proof fn lemma_same_parity(n: int, root: int)
    requires
        root * root == 5 * n * n + 4 || root * root == 5 * n * n - 4,
    ensures
        (root - n) % 2 == 0,
{
    let p = root / 2;
    let i = root % 2;
    let q = n / 2;
    let j = n % 2;
    assert(root == 2 * p + i && n == 2 * q + j);
    if i != j {
        // One of them is even and the other odd: the squares differ by an
        // odd number modulo 4, not by 4.
        assert(root * root - 5 * (n * n) == 4 * (p * p + p * i - 5 * (q * q) - 5 * (q * j)) + i * i
            - 5 * (j * j)) by (nonlinear_arith)
            requires
                root == 2 * p + i,
                n == 2 * q + j,
        ;
        assert(5 * n * n == 5 * (n * n)) by (nonlinear_arith);
        let t = p * p + p * i - 5 * (q * q) - 5 * (q * j);
        if i == 1 {
            assert(j == 0);
            assert(4 * t + 1 == 4 || 4 * t + 1 == -4);
        } else {
            assert(i == 0 && j == 1);
            assert(4 * t - 5 == 4 || 4 * t - 5 == -4);
        }
        assert(false);
    }
}

/// The square criterion is exact: a number passes it if and only if it is
/// a term of the Fibonacci sequence.
pub proof fn lemma_square_test_exact(n: nat)
    ensures
        passes_square_test(n as int) <==> is_fibonacci_number(n),
{
    let m = n as int;
    if passes_square_test(m) {
        if is_square(5 * m * m + 4) {
            let r = choose|r: int| 0 <= r && #[trigger] (r * r) == 5 * m * m + 4;
            let k = lemma_square_gives_index(m, r);
            assert(fib(k) == n);
        } else {
            let r = choose|r: int| 0 <= r && #[trigger] (r * r) == 5 * m * m - 4;
            let k = lemma_square_gives_index(m, r);
            assert(fib(k) == n);
        }
    }
    if is_fibonacci_number(n) {
        let k = choose|k: nat| fib(k) == n;
        lemma_fibonacci_passes(k);
    }
}

} // verus!
