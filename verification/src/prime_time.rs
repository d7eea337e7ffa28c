use vstd::prelude::*;

verus! {

/// The methods a primality request can name.
#[derive(PartialEq, Eq, Structural, Debug, Clone, Copy)]
pub enum Method {
    IsPrime,
}

/// The answer to a primality request.
#[derive(PartialEq, Eq, Structural, Debug, Clone, Copy)]
pub struct Response {
    method: Method,
    prime: bool,
}

impl Response {
    /// The answer that says whether the number asked about is prime.
    pub fn new(prime: bool) -> (res: Response)
        ensures
            res.method() == Method::IsPrime,
            res.prime() == prime,
    {
        Response { method: Method::IsPrime, prime }
    }

    /// The method this answers.
    pub closed spec fn method(&self) -> Method {
        self.method
    }

    /// Whether the number was prime.
    pub closed spec fn prime(&self) -> bool {
        self.prime
    }

    /// The method this answers.
    pub fn get_method(&self) -> (res: Method)
        ensures
            res == self.method(),
    {
        self.method
    }

    /// Whether the number was prime.
    pub fn get_prime(&self) -> (res: bool)
        ensures
            res == self.prime(),
    {
        self.prime
    }
}

/// What the server does with one request line.
#[derive(PartialEq, Eq, Structural, Debug, Clone, Copy)]
pub enum Reply {
    /// Send this answer and read the next line.
    Answer(Response),
    /// Send `malformed` and end the session.
    Malformed,
}

/// The reply to one request line: `verdict` is whether the number asked about
/// is prime when the line is a well-formed request, and `None` when it is not.
pub fn reply_to(verdict: Option<bool>) -> (res: Reply)
    ensures
        match verdict {
            Some(prime) => res matches Reply::Answer(r) && r.method() == Method::IsPrime
                && r.prime() == prime,
            None => res == Reply::Malformed,
        },
{
    match verdict {
        Some(prime) => Reply::Answer(Response::new(prime)),
        None => Reply::Malformed,
    }
}

/// `n` is a prime number.
pub open spec fn is_prime(n: int) -> bool {
    n >= 2 && forall|d: int| 2 <= d < n ==> #[trigger] (n % d) != 0
}

/// No number from 2 up to `root` divides `n`.
pub open spec fn no_divisor_up_to(n: int, root: int) -> bool {
    forall|d: int| 2 <= d <= root ==> #[trigger] (n % d) != 0
}

/// The verdict on a whole number `n` of at least 2, given `root`, the whole
/// part of its square root: 2 and 3 are prime, and a larger `n` is prime
/// when nothing from 2 up to `root` divides it.
pub fn integral_is_prime(n: u64, root: u64) -> (res: bool)
    ensures
        res == (n <= 3 || no_divisor_up_to(n as int, root as int)),
{
    if n <= 3 {
        return true;
    }
    if root < 2 {
        return true;
    }
    let mut a: u64 = 2;
    loop
        invariant
            n > 3,
            2 <= a <= root,
            forall|d: int| 2 <= d < a ==> #[trigger] (n as int % d) != 0,
        decreases root - a,
    {
        if n % a == 0 {
            assert((n as int) % (a as int) == 0);
            return false;
        }
        if a == root {
            return true;
        }
        a = a + 1;
    }
}

/// When `root` is the whole part of the square root of `n`, the verdict of
/// `integral_is_prime` is exactly whether `n` is prime.
pub proof fn law_root_bound_decides_primality(n: u64, root: u64)
    requires
        n >= 2,
        root * root <= n,
        n < (root + 1) * (root + 1),
    ensures
        (n <= 3 || no_divisor_up_to(n as int, root as int)) == is_prime(n as int),
{
    let n = n as int;
    let r = root as int;
    if r >= n {
        assert(r * r >= n * n) by (nonlinear_arith)
            requires
                r >= n,
                n >= 2,
        ;
        assert(n * n > n) by (nonlinear_arith)
            requires
                n >= 2,
        ;
    }
    assert(r < n);
    if is_prime(n) {
        assert forall|d: int| 2 <= d <= r implies #[trigger] (n % d) != 0 by {
            assert(d < n);
        }
    }
    if n <= 3 {
        assert forall|d: int| 2 <= d < n implies #[trigger] (n % d) != 0 by {
            if n == 3 {
                assert(d == 2);
                assert(3int % 2int == 1);
            }
        }
    } else if no_divisor_up_to(n, r) {
        assert forall|d: int| 2 <= d < n implies #[trigger] (n % d) != 0 by {
            if n % d == 0 {
                let e = n / d;
                assert(n == d * e) by (nonlinear_arith)
                    requires
                        n % d == 0,
                        d > 0,
                        e == n / d,
                ;
                assert(e >= 2 && e < n) by (nonlinear_arith)
                    requires
                        n == d * e,
                        2 <= d < n,
                ;
                assert(n % e == 0) by (nonlinear_arith)
                    requires
                        n == d * e,
                        e >= 2,
                ;
                if d <= r {
                    assert(n % d != 0);
                } else if e <= r {
                    assert(n % e != 0);
                } else {
                    assert(d * e >= (r + 1) * (r + 1)) by (nonlinear_arith)
                        requires
                            d >= r + 1,
                            e >= r + 1,
                            r >= 0,
                    ;
                }
            }
        }
    }
}

} // verus!
