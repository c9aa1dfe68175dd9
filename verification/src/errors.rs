use vstd::prelude::*;

verus! {

/// HTTP status codes that errors map to.
#[derive(Debug, Clone, Copy, PartialEq, Eq, Structural)]
pub enum HttpStatus {
    BadRequest,
    Unauthorized,
    PaymentRequired,
    Forbidden,
    NotFound,
    Conflict,
    UnprocessableEntity,
    TooManyRequests,
    InternalServerError,
    BadGateway,
    ServiceUnavailable,
    GatewayTimeout,
}

impl HttpStatus {
    /// The numeric code of this status.
    pub open spec fn spec_as_u16(self) -> u16 {
        match self {
            HttpStatus::BadRequest => 400,
            HttpStatus::Unauthorized => 401,
            HttpStatus::PaymentRequired => 402,
            HttpStatus::Forbidden => 403,
            HttpStatus::NotFound => 404,
            HttpStatus::Conflict => 409,
            HttpStatus::UnprocessableEntity => 422,
            HttpStatus::TooManyRequests => 429,
            HttpStatus::InternalServerError => 500,
            HttpStatus::BadGateway => 502,
            HttpStatus::ServiceUnavailable => 503,
            HttpStatus::GatewayTimeout => 504,
        }
    }

    /// Get the numeric status code.
    pub fn as_u16(&self) -> (r: u16)
        ensures
            r == self.spec_as_u16(),
    {
        match self {
            HttpStatus::BadRequest => 400,
            HttpStatus::Unauthorized => 401,
            HttpStatus::PaymentRequired => 402,
            HttpStatus::Forbidden => 403,
            HttpStatus::NotFound => 404,
            HttpStatus::Conflict => 409,
            HttpStatus::UnprocessableEntity => 422,
            HttpStatus::TooManyRequests => 429,
            HttpStatus::InternalServerError => 500,
            HttpStatus::BadGateway => 502,
            HttpStatus::ServiceUnavailable => 503,
            HttpStatus::GatewayTimeout => 504,
        }
    }
}

/// Stable error codes, serialized to clients.
#[derive(Debug, Clone, Copy, PartialEq, Eq, Structural)]
pub enum ErrorCode {
    ValidationError,
    AuthenticationError,
    AuthorizationError,
    NotFound,
    Conflict,
    BusinessRuleError,
    RateLimitExceeded,
    QuotaExceeded,
    InternalError,
    DatabaseError,
    CacheError,
    ExternalServiceError,
    ServiceUnavailable,
    Timeout,
    ConfigurationError,
    PolicyViolation,
}

/// Structured context attached to an error.
#[derive(Debug, Clone, PartialEq, Eq)]
pub enum ErrorDetails {
    /// The resource kind and identifier a lookup missed.
    Missing { resource: String, identifier: String },
    /// The upstream service an external error came from.
    Service { service: String },
    /// The policy violations behind a rejection.
    Violations { violations: Vec<String> },
}

/// Infrastructure error: a stable code, its HTTP status, a human-readable
/// message, and optional retry advice and context.
#[derive(Debug, Clone, PartialEq, Eq)]
pub struct InfraError {
    pub code: ErrorCode,
    pub status: HttpStatus,
    pub message: String,
    /// Whether this is an expected operational error, as opposed to a
    /// configuration or programming error.
    pub is_operational: bool,
    pub retry_after_seconds: Option<u64>,
    pub details: Option<ErrorDetails>,
}

/// Wire shape of an error, as serialized into an HTTP response body.
#[derive(Debug, Clone, PartialEq, Eq)]
pub struct ErrorResponse {
    pub error: ErrorCode,
    pub message: String,
    pub status: u16,
    pub details: Option<ErrorDetails>,
    pub retry_after: Option<u64>,
}

impl InfraError {
    /// A new operational error with the given code, status and message.
    pub fn new(code: ErrorCode, status: HttpStatus, message: String) -> (r: Self)
        ensures
            r.code == code,
            r.status == status,
            r.message == message,
            r.is_operational,
            r.retry_after_seconds is None,
            r.details is None,
    {
        InfraError {
            code,
            status,
            message,
            is_operational: true,
            retry_after_seconds: None,
            details: None,
        }
    }

    /// Attach structured details.
    pub fn with_details(self, details: ErrorDetails) -> (r: Self)
        ensures
            r == (InfraError { details: Some(details), ..self }),
    {
        InfraError { details: Some(details), ..self }
    }

    /// Mark as a non-operational (programming or configuration) error.
    pub fn non_operational(self) -> (r: Self)
        ensures
            r == (InfraError { is_operational: false, ..self }),
    {
        InfraError { is_operational: false, ..self }
    }

    /// Attach a retry-after hint in seconds.
    pub fn with_retry_after(self, seconds: u64) -> (r: Self)
        ensures
            r == (InfraError { retry_after_seconds: Some(seconds), ..self }),
    {
        InfraError { retry_after_seconds: Some(seconds), ..self }
    }

    /// A validation error: HTTP 400.
    pub fn validation(message: String) -> (r: Self)
        ensures
            r.code == ErrorCode::ValidationError,
            r.status == HttpStatus::BadRequest,
            r.message == message,
            r.is_operational,
            r.retry_after_seconds is None,
            r.details is None,
    {
        Self::new(ErrorCode::ValidationError, HttpStatus::BadRequest, message)
    }

    /// An authentication error: HTTP 401.
    pub fn authentication(message: String) -> (r: Self)
        ensures
            r.code == ErrorCode::AuthenticationError,
            r.status == HttpStatus::Unauthorized,
            r.message == message,
            r.is_operational,
    {
        Self::new(ErrorCode::AuthenticationError, HttpStatus::Unauthorized, message)
    }

    /// An authorization error: HTTP 403.
    pub fn authorization(message: String) -> (r: Self)
        ensures
            r.code == ErrorCode::AuthorizationError,
            r.status == HttpStatus::Forbidden,
            r.message == message,
            r.is_operational,
    {
        Self::new(ErrorCode::AuthorizationError, HttpStatus::Forbidden, message)
    }

    /// A not-found error for the named resource: HTTP 404. The message reads
    /// `<resource> '<identifier>' not found` and the details keep both parts.
    pub fn not_found(resource: &str, identifier: &str) -> (r: Self)
        ensures
            r.code == ErrorCode::NotFound,
            r.status == HttpStatus::NotFound,
            r.message@ == resource@ + " '"@ + identifier@ + "' not found"@,
            r.details matches Some(ErrorDetails::Missing { resource: res, identifier: id })
                && res@ == resource@ && id@ == identifier@,
            r.is_operational,
    {
        let mut message = String::from_str(resource);
        message.append(" '");
        message.append(identifier);
        message.append("' not found");
        Self::new(ErrorCode::NotFound, HttpStatus::NotFound, message).with_details(
            ErrorDetails::Missing {
                resource: String::from_str(resource),
                identifier: String::from_str(identifier),
            },
        )
    }

    /// A conflict error: HTTP 409.
    pub fn conflict(message: String) -> (r: Self)
        ensures
            r.code == ErrorCode::Conflict,
            r.status == HttpStatus::Conflict,
            r.message == message,
            r.is_operational,
    {
        Self::new(ErrorCode::Conflict, HttpStatus::Conflict, message)
    }

    /// A business-rule error: HTTP 422.
    pub fn business_rule(message: String) -> (r: Self)
        ensures
            r.code == ErrorCode::BusinessRuleError,
            r.status == HttpStatus::UnprocessableEntity,
            r.message == message,
            r.is_operational,
    {
        Self::new(ErrorCode::BusinessRuleError, HttpStatus::UnprocessableEntity, message)
    }

    /// A rate-limit error: HTTP 429, with the retry-after hint when known.
    pub fn rate_limit(retry_after_seconds: Option<u64>) -> (r: Self)
        ensures
            r.code == ErrorCode::RateLimitExceeded,
            r.status == HttpStatus::TooManyRequests,
            r.message@ == "Rate limit exceeded"@,
            r.retry_after_seconds == retry_after_seconds,
            r.is_operational,
    {
        let e = Self::new(
            ErrorCode::RateLimitExceeded,
            HttpStatus::TooManyRequests,
            String::from_str("Rate limit exceeded"),
        );
        match retry_after_seconds {
            Some(seconds) => e.with_retry_after(seconds),
            None => e,
        }
    }

    /// A quota-exceeded error: HTTP 402.
    pub fn quota_exceeded(message: String) -> (r: Self)
        ensures
            r.code == ErrorCode::QuotaExceeded,
            r.status == HttpStatus::PaymentRequired,
            r.message == message,
            r.is_operational,
    {
        Self::new(ErrorCode::QuotaExceeded, HttpStatus::PaymentRequired, message)
    }

    /// An internal error: HTTP 500, non-operational.
    pub fn internal(message: String) -> (r: Self)
        ensures
            r.code == ErrorCode::InternalError,
            r.status == HttpStatus::InternalServerError,
            r.message == message,
            !r.is_operational,
    {
        Self::new(ErrorCode::InternalError, HttpStatus::InternalServerError, message)
            .non_operational()
    }

    /// A database error: HTTP 500.
    pub fn database(message: String) -> (r: Self)
        ensures
            r.code == ErrorCode::DatabaseError,
            r.status == HttpStatus::InternalServerError,
            r.message == message,
            r.is_operational,
    {
        Self::new(ErrorCode::DatabaseError, HttpStatus::InternalServerError, message)
    }

    /// A cache error: HTTP 500.
    pub fn cache(message: String) -> (r: Self)
        ensures
            r.code == ErrorCode::CacheError,
            r.status == HttpStatus::InternalServerError,
            r.message == message,
            r.is_operational,
    {
        Self::new(ErrorCode::CacheError, HttpStatus::InternalServerError, message)
    }

    /// An error of a named external service: HTTP 502. The message reads
    /// `<service>: <message>` and the details keep the service name.
    pub fn external_service(service: &str, message: String) -> (r: Self)
        ensures
            r.code == ErrorCode::ExternalServiceError,
            r.status == HttpStatus::BadGateway,
            r.message@ == service@ + ": "@ + message@,
            r.details matches Some(ErrorDetails::Service { service: svc }) && svc@ == service@,
            r.is_operational,
    {
        let mut full = String::from_str(service);
        full.append(": ");
        full.append(message.as_str());
        Self::new(ErrorCode::ExternalServiceError, HttpStatus::BadGateway, full).with_details(
            ErrorDetails::Service { service: String::from_str(service) },
        )
    }

    /// A service-unavailable error: HTTP 503, with the retry-after hint when
    /// known.
    pub fn service_unavailable(message: String, retry_after: Option<u64>) -> (r: Self)
        ensures
            r.code == ErrorCode::ServiceUnavailable,
            r.status == HttpStatus::ServiceUnavailable,
            r.message == message,
            r.retry_after_seconds == retry_after,
            r.is_operational,
    {
        let e = Self::new(ErrorCode::ServiceUnavailable, HttpStatus::ServiceUnavailable, message);
        match retry_after {
            Some(seconds) => e.with_retry_after(seconds),
            None => e,
        }
    }

    /// A timeout error: HTTP 504, naming the service when known.
    pub fn timeout(service: Option<&str>) -> (r: Self)
        ensures
            r.code == ErrorCode::Timeout,
            r.status == HttpStatus::GatewayTimeout,
            service is Some ==> r.message@ == "Request to "@ + service->Some_0@ + " timed out"@,
            service is None ==> r.message@ == "Request timed out"@,
            r.is_operational,
    {
        let message = match service {
            Some(s) => {
                let mut m = String::from_str("Request to ");
                m.append(s);
                m.append(" timed out");
                m
            },
            None => String::from_str("Request timed out"),
        };
        Self::new(ErrorCode::Timeout, HttpStatus::GatewayTimeout, message)
    }

    /// A configuration error: HTTP 500, non-operational.
    pub fn configuration(message: String) -> (r: Self)
        ensures
            r.code == ErrorCode::ConfigurationError,
            r.status == HttpStatus::InternalServerError,
            r.message == message,
            !r.is_operational,
    {
        Self::new(ErrorCode::ConfigurationError, HttpStatus::InternalServerError, message)
            .non_operational()
    }

    /// A policy-violation error: HTTP 403, carrying the violations.
    pub fn policy_violation(message: String, violations: Vec<String>) -> (r: Self)
        ensures
            r.code == ErrorCode::PolicyViolation,
            r.status == HttpStatus::Forbidden,
            r.message == message,
            r.details == Some(ErrorDetails::Violations { violations }),
            r.is_operational,
    {
        Self::new(ErrorCode::PolicyViolation, HttpStatus::Forbidden, message).with_details(
            ErrorDetails::Violations { violations },
        )
    }

    /// The wire shape of this error.
    pub fn to_response(self) -> (r: ErrorResponse)
        ensures
            r.error == self.code,
            r.message == self.message,
            r.status == self.status.spec_as_u16(),
            r.details == self.details,
            r.retry_after == self.retry_after_seconds,
    {
        let status = self.status.as_u16();
        ErrorResponse {
            error: self.code,
            message: self.message,
            status,
            details: self.details,
            retry_after: self.retry_after_seconds,
        }
    }
}

/// Application-wide error of the gateway's caller-facing surface. Each
/// variant carries its human-readable message.
#[derive(Debug, Clone, PartialEq, Eq)]
pub enum AppError {
    Database(String),
    Redis(String),
    Authentication(String),
    Authorization(String),
    RateLimitExceeded(String),
    QuotaExceeded(String),
    ServiceNotFound(String),
    ServiceUnavailable(String),
    InvalidRequest(String),
    Internal(String),
    Validation(String),
    Timeout(String),
}

/// Wire shape of an application error.
#[derive(Debug, Clone, PartialEq, Eq)]
pub struct AppErrorResponse {
    pub error: String,
    pub message: String,
    pub status: u16,
}

impl AppError {
    /// The HTTP status this error maps to.
    pub open spec fn spec_status_code(self) -> HttpStatus {
        match self {
            AppError::Database(_) => HttpStatus::InternalServerError,
            AppError::Redis(_) => HttpStatus::InternalServerError,
            AppError::Authentication(_) => HttpStatus::Unauthorized,
            AppError::Authorization(_) => HttpStatus::Forbidden,
            AppError::RateLimitExceeded(_) => HttpStatus::TooManyRequests,
            AppError::QuotaExceeded(_) => HttpStatus::PaymentRequired,
            AppError::ServiceNotFound(_) => HttpStatus::NotFound,
            AppError::ServiceUnavailable(_) => HttpStatus::ServiceUnavailable,
            AppError::InvalidRequest(_) => HttpStatus::BadRequest,
            AppError::Internal(_) => HttpStatus::InternalServerError,
            AppError::Validation(_) => HttpStatus::BadRequest,
            AppError::Timeout(_) => HttpStatus::GatewayTimeout,
        }
    }

    /// Get the HTTP status code for this error.
    pub fn status_code(&self) -> (r: HttpStatus)
        ensures
            r == self.spec_status_code(),
    {
        match self {
            AppError::Database(_) => HttpStatus::InternalServerError,
            AppError::Redis(_) => HttpStatus::InternalServerError,
            AppError::Authentication(_) => HttpStatus::Unauthorized,
            AppError::Authorization(_) => HttpStatus::Forbidden,
            AppError::RateLimitExceeded(_) => HttpStatus::TooManyRequests,
            AppError::QuotaExceeded(_) => HttpStatus::PaymentRequired,
            AppError::ServiceNotFound(_) => HttpStatus::NotFound,
            AppError::ServiceUnavailable(_) => HttpStatus::ServiceUnavailable,
            AppError::InvalidRequest(_) => HttpStatus::BadRequest,
            AppError::Internal(_) => HttpStatus::InternalServerError,
            AppError::Validation(_) => HttpStatus::BadRequest,
            AppError::Timeout(_) => HttpStatus::GatewayTimeout,
        }
    }

    /// The stable label of this error kind.
    pub open spec fn spec_error_type(self) -> Seq<char> {
        match self {
            AppError::Database(_) => "database_error"@,
            AppError::Redis(_) => "redis_error"@,
            AppError::Authentication(_) => "authentication_error"@,
            AppError::Authorization(_) => "authorization_error"@,
            AppError::RateLimitExceeded(_) => "rate_limit_exceeded"@,
            AppError::QuotaExceeded(_) => "quota_exceeded"@,
            AppError::ServiceNotFound(_) => "service_not_found"@,
            AppError::ServiceUnavailable(_) => "service_unavailable"@,
            AppError::InvalidRequest(_) => "invalid_request"@,
            AppError::Internal(_) => "internal_error"@,
            AppError::Validation(_) => "validation_error"@,
            AppError::Timeout(_) => "timeout"@,
        }
    }

    /// Get error type string.
    pub fn error_type(&self) -> (r: &'static str)
        ensures
            r@ == self.spec_error_type(),
    {
        match self {
            AppError::Database(_) => "database_error",
            AppError::Redis(_) => "redis_error",
            AppError::Authentication(_) => "authentication_error",
            AppError::Authorization(_) => "authorization_error",
            AppError::RateLimitExceeded(_) => "rate_limit_exceeded",
            AppError::QuotaExceeded(_) => "quota_exceeded",
            AppError::ServiceNotFound(_) => "service_not_found",
            AppError::ServiceUnavailable(_) => "service_unavailable",
            AppError::InvalidRequest(_) => "invalid_request",
            AppError::Internal(_) => "internal_error",
            AppError::Validation(_) => "validation_error",
            AppError::Timeout(_) => "timeout",
        }
    }

    /// The prefix the full message of this error kind begins with.
    pub open spec fn spec_message_prefix(self) -> Seq<char> {
        match self {
            AppError::Database(_) => "Database error: "@,
            AppError::Redis(_) => "Redis error: "@,
            AppError::Authentication(_) => "Authentication failed: "@,
            AppError::Authorization(_) => "Authorization failed: "@,
            AppError::RateLimitExceeded(_) => "Rate limit exceeded: "@,
            AppError::QuotaExceeded(_) => "Quota exceeded: "@,
            AppError::ServiceNotFound(_) => "Service not found: "@,
            AppError::ServiceUnavailable(_) => "Service unavailable: "@,
            AppError::InvalidRequest(_) => "Invalid request: "@,
            AppError::Internal(_) => "Internal server error: "@,
            AppError::Validation(_) => "Validation error: "@,
            AppError::Timeout(_) => "Timeout: "@,
        }
    }

    /// The inner message this error carries.
    pub open spec fn spec_inner(self) -> Seq<char> {
        match self {
            AppError::Database(m) => m@,
            AppError::Redis(m) => m@,
            AppError::Authentication(m) => m@,
            AppError::Authorization(m) => m@,
            AppError::RateLimitExceeded(m) => m@,
            AppError::QuotaExceeded(m) => m@,
            AppError::ServiceNotFound(m) => m@,
            AppError::ServiceUnavailable(m) => m@,
            AppError::InvalidRequest(m) => m@,
            AppError::Internal(m) => m@,
            AppError::Validation(m) => m@,
            AppError::Timeout(m) => m@,
        }
    }

    /// The full message: the kind's prefix followed by the carried message.
    pub fn message(&self) -> (r: String)
        ensures
            r@ == self.spec_message_prefix() + self.spec_inner(),
    {
        let (prefix, inner): (&'static str, &String) = match self {
            AppError::Database(m) => ("Database error: ", m),
            AppError::Redis(m) => ("Redis error: ", m),
            AppError::Authentication(m) => ("Authentication failed: ", m),
            AppError::Authorization(m) => ("Authorization failed: ", m),
            AppError::RateLimitExceeded(m) => ("Rate limit exceeded: ", m),
            AppError::QuotaExceeded(m) => ("Quota exceeded: ", m),
            AppError::ServiceNotFound(m) => ("Service not found: ", m),
            AppError::ServiceUnavailable(m) => ("Service unavailable: ", m),
            AppError::InvalidRequest(m) => ("Invalid request: ", m),
            AppError::Internal(m) => ("Internal server error: ", m),
            AppError::Validation(m) => ("Validation error: ", m),
            AppError::Timeout(m) => ("Timeout: ", m),
        };
        let mut full = String::from_str(prefix);
        full.append(inner.as_str());
        full
    }

    /// Convert to error response.
    pub fn to_response(&self) -> (r: AppErrorResponse)
        ensures
            r.error@ == self.spec_error_type(),
            r.message@ == self.spec_message_prefix() + self.spec_inner(),
            r.status == self.spec_status_code().spec_as_u16(),
    {
        AppErrorResponse {
            error: String::from_str(self.error_type()),
            message: self.message(),
            status: self.status_code().as_u16(),
        }
    }
}

} // verus!
